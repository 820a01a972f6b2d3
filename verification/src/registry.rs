//! The registry kept in `index.yaml`: which destination below the home
//! directory each managed copy below `files/` is installed at.

use vstd::prelude::*;
use crate::path::{unsafe_relative, validate_relative};

verus! {

/// One managed path: an optional name, the managed copy (relative to the
/// repository root) and the installed path (relative to the home directory).
#[derive(Debug)]
pub struct Entry {
    pub name: Option<String>,
    pub source: String,
    pub destination: String,
}

pub struct EntryView {
    pub name: Option<Seq<char>>,
    pub source: Seq<char>,
    pub destination: Seq<char>,
}

impl View for Entry {
    type V = EntryView;

    open spec fn view(&self) -> EntryView {
        EntryView {
            name: match self.name {
                Some(n) => Some(n@),
                None => None,
            },
            source: self.source@,
            destination: self.destination@,
        }
    }
}

/// The registry: its format version and its entries, in order.
#[derive(Debug)]
pub struct Registry {
    pub version: u32,
    pub entries: Vec<Entry>,
}

/// The only registry version this library reads.
pub const REGISTRY_VERSION: u32 = 1;

impl Registry {
    pub open spec fn entries_view(&self) -> Seq<EntryView> {
        self.entries@.map_values(|e: Entry| e@)
    }
}

/// Why a registry is refused; the `usize` is the index of the first entry
/// that breaks a rule.
#[derive(Debug, Clone, Copy, PartialEq, Eq, Structural)]
pub enum RegistryError {
    UnsupportedVersion(u32),
    UnsafeSource(usize),
    UnsafeDestination(usize),
    SourceOutsideFiles(usize),
    DuplicateDestination(usize),
    BlankName(usize),
    DuplicateName(usize),
}

/// Whether `c` is a Unicode `White_Space` character (what
/// `char::is_whitespace` tests, and so what `str::trim` removes).
pub open spec fn is_white_space(c: char) -> bool {
    let u = c as u32;
    ||| 0x09 <= u <= 0x0D
    ||| u == 0x20
    ||| u == 0x85
    ||| u == 0xA0
    ||| u == 0x1680
    ||| 0x2000 <= u <= 0x200A
    ||| u == 0x2028
    ||| u == 0x2029
    ||| u == 0x202F
    ||| u == 0x205F
    ||| u == 0x3000
}

/// A name that is empty once trimmed: every character is white space.
pub open spec fn blank(name: Seq<char>) -> bool {
    forall|i: int| 0 <= i < name.len() ==> is_white_space(#[trigger] name[i])
}

pub open spec fn files_prefix() -> Seq<char> {
    seq!['f', 'i', 'l', 'e', 's', '/']
}

/// Whether a source starts with `files/`.
pub open spec fn below_files(source: Seq<char>) -> bool {
    source.len() >= 6 && source.take(6) == files_prefix()
}

/// The rule that entry `e` (at index `i`, after the entries `prev`) breaks
/// first, if any: unsafe source, unsafe destination, source outside
/// `files/`, repeated destination, blank name, repeated name.
pub open spec fn entry_problem(prev: Seq<EntryView>, e: EntryView, i: usize) -> Option<RegistryError> {
    if unsafe_relative(e.source) {
        Some(RegistryError::UnsafeSource(i))
    } else if unsafe_relative(e.destination) {
        Some(RegistryError::UnsafeDestination(i))
    } else if !below_files(e.source) {
        Some(RegistryError::SourceOutsideFiles(i))
    } else if exists|j: int| 0 <= j < prev.len() && #[trigger] prev[j].destination == e.destination {
        Some(RegistryError::DuplicateDestination(i))
    } else {
        match e.name {
            Some(n) => if blank(n) {
                Some(RegistryError::BlankName(i))
            } else if exists|j: int| 0 <= j < prev.len() && #[trigger] prev[j].name == Some(n) {
                Some(RegistryError::DuplicateName(i))
            } else {
                None
            },
            None => None,
        }
    }
}

/// The first rule that the entries break, checking them in order.
pub open spec fn first_problem(es: Seq<EntryView>) -> Option<RegistryError>
    decreases es.len(),
{
    if es.len() == 0 {
        None
    } else {
        match first_problem(es.drop_last()) {
            Some(e) => Some(e),
            None => entry_problem(es.drop_last(), es.last(), (es.len() - 1) as usize),
        }
    }
}

/// Once a prefix of the entries breaks a rule, the whole list reports that
/// same rule.
proof fn lemma_first_problem_extends(es: Seq<EntryView>, k: int)
    requires
        0 <= k <= es.len(),
        first_problem(es.take(k)) is Some,
    ensures
        first_problem(es) == first_problem(es.take(k)),
    decreases es.len() - k,
{
    if k < es.len() {
        assert(es.take(k + 1).drop_last() =~= es.take(k));
        lemma_first_problem_extends(es, k + 1);
    } else {
        assert(es.take(k) =~= es);
    }
}

/// Why a registry is refused, if it is.
pub open spec fn registry_problem(version: u32, es: Seq<EntryView>) -> Option<RegistryError> {
    if version != REGISTRY_VERSION {
        Some(RegistryError::UnsupportedVersion(version))
    } else {
        first_problem(es)
    }
}

/// Whether `c` is white space in the sense of `char::is_whitespace`.
pub fn is_white_space_char(c: char) -> (b: bool)
    ensures
        b == is_white_space(c),
{
    let u = c as u32;
    (0x09 <= u && u <= 0x0D) || u == 0x20 || u == 0x85 || u == 0xA0 || u == 0x1680 || (0x2000 <= u
        && u <= 0x200A) || u == 0x2028 || u == 0x2029 || u == 0x202F || u == 0x205F || u == 0x3000
}

/// Whether `name` is empty once white space is trimmed from both ends.
pub fn is_blank(name: &str) -> (b: bool)
    ensures
        b == blank(name@),
{
    let chars = crate::text::chars_of(name);
    let n = chars.len();
    for i in 0..n
        invariant
            n == chars@.len(),
            chars@ == name@,
            forall|j: int| 0 <= j < i ==> is_white_space(#[trigger] chars@[j]),
    {
        if !is_white_space_char(chars[i]) {
            return false;
        }
    }
    true
}

/// Whether `source` starts with `files/`.
pub fn is_below_files(source: &str) -> (b: bool)
    ensures
        b == below_files(source@),
{
    let chars = crate::text::chars_of(source);
    if chars.len() < 6 {
        return false;
    }
    let r = chars[0] == 'f' && chars[1] == 'i' && chars[2] == 'l' && chars[3] == 'e' && chars[4]
        == 's' && chars[5] == '/';
    if r {
        assert(chars@.take(6) =~= files_prefix());
    } else {
        assert(chars@.take(6)[0] != 'f' || chars@.take(6)[1] != 'i' || chars@.take(6)[2] != 'l'
            || chars@.take(6)[3] != 'e' || chars@.take(6)[4] != 's' || chars@.take(6)[5] != '/');
    }
    r
}

fn same_name(a: &Option<String>, b: &Option<String>) -> (r: bool)
    ensures
        r == ((match *a { Some(n) => Some(n@), None => None::<Seq<char>> }) == (match *b {
            Some(n) => Some(n@),
            None => None::<Seq<char>>,
        })),
{
    match (a, b) {
        (Some(x), Some(y)) => x.eq(y),
        (None, None) => true,
        _ => false,
    }
}

impl Registry {
    /// The empty registry that `dotman init` writes.
    pub fn empty() -> (r: Registry)
        ensures
            r.version == REGISTRY_VERSION,
            r.entries@.len() == 0,
    {
        Registry { version: REGISTRY_VERSION, entries: Vec::new() }
    }

    /// The rule that entry `i` breaks given the entries before it.
    fn check_entry(&self, i: usize) -> (r: Option<RegistryError>)
        requires
            i < self.entries@.len(),
        ensures
            r == entry_problem(self.entries_view().take(i as int), self.entries_view()[i as int], i),
    {
        let ghost prev = self.entries_view().take(i as int);
        let e = &self.entries[i];
        if validate_relative(e.source.as_str()).is_err() {
            return Some(RegistryError::UnsafeSource(i));
        }
        if validate_relative(e.destination.as_str()).is_err() {
            return Some(RegistryError::UnsafeDestination(i));
        }
        if !is_below_files(e.source.as_str()) {
            return Some(RegistryError::SourceOutsideFiles(i));
        }
        for j in 0..i
            invariant
                i < self.entries@.len(),
                prev == self.entries_view().take(i as int),
                e == &self.entries@[i as int],
                !unsafe_relative(e.source@),
                !unsafe_relative(e.destination@),
                below_files(e.source@),
                forall|k: int| 0 <= k < j ==> #[trigger] prev[k].destination != e.destination@,
        {
            if self.entries[j].destination == e.destination {
                assert(prev[j as int].destination == e.destination@);
                return Some(RegistryError::DuplicateDestination(i));
            }
        }
        match &e.name {
            None => None,
            Some(n) => {
                if is_blank(n.as_str()) {
                    return Some(RegistryError::BlankName(i));
                }
                for j in 0..i
                    invariant
                        i < self.entries@.len(),
                        prev == self.entries_view().take(i as int),
                        e == &self.entries@[i as int],
                        e.name == Some(*n),
                        !unsafe_relative(e.source@),
                        !unsafe_relative(e.destination@),
                        below_files(e.source@),
                        !blank(n@),
                        forall|k: int| 0 <= k < i ==> #[trigger] prev[k].destination != e.destination@,
                        forall|k: int| 0 <= k < j ==> #[trigger] prev[k].name != Some(n@),
                {
                    if same_name(&self.entries[j].name, &e.name) {
                        assert(prev[j as int].name == Some(n@));
                        return Some(RegistryError::DuplicateName(i));
                    }
                }
                None
            }
        }
    }

    /// Checks the registry as `dotman` does after reading `index.yaml`: the
    /// version must be 1; then, entry by entry, both paths must be relative
    /// without `..`, the source must start with `files/`, no destination may
    /// repeat, and a name, where given, must not be blank nor repeat. The
    /// first broken rule is reported.
    pub fn validate(&self) -> (r: Result<(), RegistryError>)
        ensures
            r matches Ok(_) ==> registry_problem(self.version, self.entries_view()) is None,
            r matches Err(e) ==> registry_problem(self.version, self.entries_view()) == Some(e),
    {
        if self.version != REGISTRY_VERSION {
            return Err(RegistryError::UnsupportedVersion(self.version));
        }
        let n = self.entries.len();
        for i in 0..n
            invariant
                n == self.entries@.len(),
                self.version == REGISTRY_VERSION,
                first_problem(self.entries_view().take(i as int)) is None,
        {
            proof {
                assert(self.entries_view().take(i + 1).drop_last() =~= self.entries_view().take(i as int));
                assert(self.entries_view().take(i + 1).last() == self.entries_view()[i as int]);
            }
            match self.check_entry(i) {
                Some(err) => {
                    proof {
                        lemma_first_problem_extends(self.entries_view(), i + 1);
                    }
                    return Err(err);
                },
                None => {},
            }
        }
        assert(self.entries_view().take(n as int) =~= self.entries_view());
        Ok(())
    }
}

/// The bracketed name that starts a listed line: `[name] `, or nothing.
pub open spec fn name_tag(name: Option<Seq<char>>) -> Seq<char> {
    match name {
        Some(n) => seq!['['] + n + seq![']', ' '],
        None => Seq::empty(),
    }
}

/// The line that `dotman list` prints for an entry:
/// `[name] destination -> source`, without the tag when there is no name.
pub open spec fn entry_line(e: EntryView) -> Seq<char> {
    name_tag(e.name) + e.destination + seq![' ', '-', '>', ' '] + e.source
}

/// Whether some entry is installed at `destination`.
pub open spec fn registers(es: Seq<EntryView>, destination: Seq<char>) -> bool {
    exists|j: int| 0 <= j < es.len() && #[trigger] es[j].destination == destination
}

/// The index of the first entry installed at `destination`, if any.
pub open spec fn first_position(es: Seq<EntryView>, destination: Seq<char>) -> Option<int>
    decreases es.len(),
{
    if es.len() == 0 {
        None
    } else {
        match first_position(es.drop_last(), destination) {
            Some(i) => Some(i),
            None => if es.last().destination == destination {
                Some(es.len() - 1)
            } else {
                None
            },
        }
    }
}

proof fn lemma_first_position_extends(es: Seq<EntryView>, d: Seq<char>, k: int)
    requires
        0 <= k <= es.len(),
        first_position(es.take(k), d) is Some,
    ensures
        first_position(es, d) == first_position(es.take(k), d),
    decreases es.len() - k,
{
    if k < es.len() {
        assert(es.take(k + 1).drop_last() =~= es.take(k));
        lemma_first_position_extends(es, d, k + 1);
    } else {
        assert(es.take(k) =~= es);
    }
}

/// The first position is the first entry at the destination; there is none
/// exactly when no entry is installed there.
pub proof fn lemma_first_position(es: Seq<EntryView>, d: Seq<char>)
    ensures
        first_position(es, d) is None <==> !registers(es, d),
        first_position(es, d) matches Some(i) ==> 0 <= i < es.len() && es[i].destination == d
            && forall|j: int| 0 <= j < i ==> #[trigger] es[j].destination != d,
    decreases es.len(),
{
    if es.len() > 0 {
        let p = es.drop_last();
        lemma_first_position(p, d);
        if first_position(p, d) is None {
            if es.last().destination != d {
                assert forall|j: int| 0 <= j < es.len() implies #[trigger] es[j].destination != d by {
                    if j < p.len() {
                        assert(es[j] == p[j]);
                        if p[j].destination == d {
                            assert(registers(p, d));
                        }
                    }
                }
            } else {
                assert(es[es.len() - 1].destination == d);
                assert forall|j: int| 0 <= j < es.len() - 1 implies #[trigger] es[j].destination != d by {
                    assert(es[j] == p[j]);
                    if p[j].destination == d {
                        assert(registers(p, d));
                    }
                }
            }
        } else {
            let i = first_position(p, d)->0;
            assert(es[i] == p[i]);
            assert(registers(es, d));
            assert forall|j: int| 0 <= j < i implies #[trigger] es[j].destination != d by {
                assert(es[j] == p[j]);
            }
        }
    }
}

impl Entry {
    /// The entry for a managed copy at `source` installed at `destination`.
    pub fn new(name: Option<String>, source: String, destination: String) -> (e: Entry)
        ensures
            e.name == name,
            e.source == source,
            e.destination == destination,
    {
        Entry { name, source, destination }
    }

    /// The line that `dotman list` prints for this entry.
    pub fn line(&self) -> (s: String)
        ensures
            s@ == entry_line(self@),
    {
        let mut s = String::new();
        match &self.name {
            Some(n) => {
                crate::text::push_char(&mut s, '[');
                s.append(n.as_str());
                crate::text::push_char(&mut s, ']');
                crate::text::push_char(&mut s, ' ');
            },
            None => {},
        }
        assert(s@ =~= name_tag(self@.name));
        s.append(self.destination.as_str());
        crate::text::push_char(&mut s, ' ');
        crate::text::push_char(&mut s, '-');
        crate::text::push_char(&mut s, '>');
        crate::text::push_char(&mut s, ' ');
        s.append(self.source.as_str());
        assert(s@ =~= entry_line(self@));
        s
    }
}

impl Registry {
    /// The index of the first entry installed at `destination`.
    pub fn position_of(&self, destination: &String) -> (r: Option<usize>)
        ensures
            r matches Some(i) ==> first_position(self.entries_view(), destination@) == Some(i as int),
            r is None ==> first_position(self.entries_view(), destination@) is None,
    {
        let n = self.entries.len();
        for i in 0..n
            invariant
                n == self.entries@.len(),
                first_position(self.entries_view().take(i as int), destination@) is None,
        {
            proof {
                assert(self.entries_view().take(i + 1).drop_last() =~= self.entries_view().take(i as int));
            }
            if self.entries[i].destination.eq(destination) {
                proof {
                    lemma_first_position_extends(self.entries_view(), destination@, i + 1);
                }
                return Some(i);
            }
        }
        assert(self.entries_view().take(n as int) =~= self.entries_view());
        None
    }

    /// Appends an entry.
    pub fn push_entry(&mut self, entry: Entry)
        ensures
            final(self).version == old(self).version,
            final(self).entries_view() == old(self).entries_view().push(entry@),
    {
        self.entries.push(entry);
        assert(self.entries_view() =~= old(self).entries_view().push(entry@));
    }

    /// Removes the entry at `position` and hands it back.
    pub fn remove_entry(&mut self, position: usize) -> (e: Entry)
        requires
            position < old(self).entries@.len(),
        ensures
            e@ == old(self).entries_view()[position as int],
            final(self).version == old(self).version,
            final(self).entries_view() == old(self).entries_view().remove(position as int),
    {
        let e = self.entries.remove(position);
        assert(self.entries_view() =~= old(self).entries_view().remove(position as int));
        e
    }
}

/// The lines of `dotman list`: one per entry, in registry order.
pub fn list_entries(registry: &Registry) -> (lines: Vec<String>)
    ensures
        lines@.len() == registry.entries@.len(),
        forall|i: int|
            0 <= i < lines@.len() ==> #[trigger] lines@[i]@ == entry_line(registry.entries_view()[i]),
{
    let mut lines: Vec<String> = Vec::new();
    let n = registry.entries.len();
    for i in 0..n
        invariant
            n == registry.entries@.len(),
            lines@.len() == i,
            forall|j: int|
                0 <= j < i ==> #[trigger] lines@[j]@ == entry_line(registry.entries_view()[j]),
    {
        lines.push(registry.entries[i].line());
    }
    lines
}

/// The entries pass every rule exactly when each entry passes the rules
/// given the entries before it.
proof fn lemma_first_problem_none(es: Seq<EntryView>)
    ensures
        first_problem(es) is None <==> forall|i: int|
            0 <= i < es.len() ==> (#[trigger] entry_problem(es.take(i), es[i], i as usize)) is None,
    decreases es.len(),
{
    if es.len() > 0 {
        let p = es.drop_last();
        lemma_first_problem_none(p);
        assert forall|i: int| 0 <= i < p.len() implies #[trigger] p.take(i) == es.take(i) && p[i] == es[i] by {
            assert(p.take(i) =~= es.take(i));
        }
        assert(es.take(es.len() - 1) =~= p);
        if first_problem(es) is None {
            assert forall|i: int| 0 <= i < es.len() implies (#[trigger] entry_problem(es.take(i), es[i], i as usize)) is None by {
                if i < p.len() {
                    assert(p.take(i) == es.take(i) && p[i] == es[i]);
                    assert(entry_problem(p.take(i), p[i], i as usize) is None);
                }
            }
        }
        if forall|i: int| 0 <= i < es.len() ==> (#[trigger] entry_problem(es.take(i), es[i], i as usize)) is None {
            assert forall|i: int| 0 <= i < p.len() implies (#[trigger] entry_problem(p.take(i), p[i], i as usize)) is None by {
                assert(p.take(i) == es.take(i) && p[i] == es[i]);
                assert(entry_problem(es.take(i), es[i], i as usize) is None);
            }
            assert(entry_problem(es.take(es.len() - 1), es[es.len() - 1], (es.len() - 1) as usize) is None);
        }
    }
}

/// An entry that passes the rules after some entries still passes them after
/// any selection of those entries, at any index.
proof fn lemma_entry_problem_fewer(prev: Seq<EntryView>, fewer: Seq<EntryView>, e: EntryView, i: usize, k: usize)
    requires
        entry_problem(prev, e, i) is None,
        forall|j: int| 0 <= j < fewer.len() ==> prev.contains(#[trigger] fewer[j]),
    ensures
        entry_problem(fewer, e, k) is None,
{
    if exists|j: int| 0 <= j < fewer.len() && #[trigger] fewer[j].destination == e.destination {
        let j = choose|j: int| 0 <= j < fewer.len() && #[trigger] fewer[j].destination == e.destination;
        assert(prev.contains(fewer[j]));
        let m = prev.index_of(fewer[j]);
        assert(prev[m].destination == e.destination);
    }
    if let Some(n) = e.name {
        if exists|j: int| 0 <= j < fewer.len() && #[trigger] fewer[j].name == Some(n) {
            let j = choose|j: int| 0 <= j < fewer.len() && #[trigger] fewer[j].name == Some(n);
            assert(prev.contains(fewer[j]));
            let m = prev.index_of(fewer[j]);
            assert(prev[m].name == Some(n));
        }
    }
}

/// **Removing an entry keeps the registry loadable.** A registry that passes
/// the checks of `Registry::validate` still passes them once any one entry
/// is removed, as `dotman remove` does.
pub proof fn lemma_remove_keeps_registry_valid(version: u32, es: Seq<EntryView>, k: int)
    requires
        registry_problem(version, es) is None,
        0 <= k < es.len(),
    ensures
        registry_problem(version, es.remove(k)) is None,
{
    let r = es.remove(k);
    lemma_first_problem_none(es);
    lemma_first_problem_none(r);
    assert forall|i: int| 0 <= i < r.len() implies (#[trigger] entry_problem(r.take(i), r[i], i as usize)) is None by {
        let m = if i < k { i } else { i + 1 };
        assert(r[i] == es[m]);
        assert(entry_problem(es.take(m), es[m], m as usize) is None);
        assert forall|j: int| 0 <= j < r.take(i).len() implies es.take(m).contains(#[trigger] r.take(i)[j]) by {
            let j2 = if j < k { j } else { j + 1 };
            assert(r.take(i)[j] == es.take(m)[j2]);
        }
        lemma_entry_problem_fewer(es.take(m), r.take(i), es[m], m as usize, i as usize);
    }
}

} // verus!
