//! Unix paths as sequences of characters, read component by component as
//! `std::path::Path` reads them.

use vstd::prelude::*;

verus! {

pub open spec fn root_text() -> Seq<char> {
    seq!['/']
}

pub open spec fn cur_text() -> Seq<char> {
    seq!['.']
}

pub open spec fn parent_text() -> Seq<char> {
    seq!['.', '.']
}

/// The pieces of `s` between its `/` separators (there is always at least one).
pub open spec fn segments(s: Seq<char>) -> Seq<Seq<char>>
    decreases s.len(),
{
    if s.len() == 0 {
        seq![Seq::empty()]
    } else {
        let p = segments(s.drop_last());
        if s.last() == '/' {
            p.push(Seq::empty())
        } else {
            p.update(p.len() - 1, p.last().push(s.last()))
        }
    }
}

/// The segments that name a component: empty and `.` segments are dropped.
pub open spec fn named_segments(segs: Seq<Seq<char>>) -> Seq<Seq<char>>
    decreases segs.len(),
{
    if segs.len() == 0 {
        Seq::empty()
    } else {
        let rest = named_segments(segs.drop_last());
        let g = segs.last();
        if g.len() == 0 || g == cur_text() {
            rest
        } else {
            rest.push(g)
        }
    }
}

/// The components of a Unix path, each written as `Component::as_os_str`
/// writes it: `/` for the root, `.` for a leading current directory, `..` for
/// a parent directory, and the name otherwise.
pub open spec fn components(s: Seq<char>) -> Seq<Seq<char>> {
    let segs = segments(s);
    if s.len() > 0 && s[0] == '/' {
        seq![root_text()] + named_segments(segs)
    } else if segs[0] == cur_text() {
        seq![cur_text()] + named_segments(segs)
    } else {
        named_segments(segs)
    }
}

proof fn lemma_segments_nonempty(s: Seq<char>)
    ensures
        segments(s).len() >= 1,
    decreases s.len(),
{
    if s.len() > 0 {
        lemma_segments_nonempty(s.drop_last());
    }
}

fn is_cur(seg: &Vec<char>) -> (b: bool)
    ensures
        b == (seg@ == cur_text()),
{
    if seg.len() == 1 && seg[0] == '.' {
        assert(seg@ =~= cur_text());
        true
    } else {
        false
    }
}

/// The components of `path`, as `Path::components` yields them.
pub fn components_of(path: &Vec<char>) -> (comps: Vec<Vec<char>>)
    ensures
        texts(comps@) == components(path@),
{
    let n = path.len();
    let mut named: Vec<Vec<char>> = Vec::new();
    let mut cur: Vec<char> = Vec::new();
    let mut first_dot = false;
    let mut seen_slash = false;
    let ghost mut done: Seq<Seq<char>> = Seq::empty();
    proof {
        assert(path@.take(0) =~= Seq::<char>::empty());
    }
    for i in 0..n
        invariant
            n == path@.len(),
            segments(path@.take(i as int)) == done.push(cur@),
            texts(named@) == named_segments(done),
            seen_slash == (done.len() > 0),
            done.len() > 0 ==> first_dot == (done[0] == cur_text()),
    {
        let c = path[i];
        proof {
            assert(path@.take(i + 1).drop_last() =~= path@.take(i as int));
            lemma_segments_nonempty(path@.take(i as int));
        }
        if c == '/' {
            let ghost old_done = done;
            if !seen_slash {
                first_dot = is_cur(&cur);
                seen_slash = true;
            }
            if cur.len() > 0 && !is_cur(&cur) {
                named.push(cur);
                proof {
                    assert(texts(named@) =~= named_segments(old_done).push(cur@));
                }
            }
            proof {
                done = done.push(cur@);
                assert(done.drop_last() =~= old_done);
            }
            cur = Vec::new();
            proof {
                assert(segments(path@.take(i + 1)) =~= done.push(cur@));
            }
        } else {
            cur.push(c);
            proof {
                assert(segments(path@.take(i + 1)) =~= done.push(cur@));
            }
        }
    }
    proof {
        assert(path@.take(n as int) =~= path@);
    }
    let ghost all = done.push(cur@);
    let starts_dot = if !seen_slash { is_cur(&cur) } else { first_dot };
    if cur.len() > 0 && !is_cur(&cur) {
        named.push(cur);
    }
    proof {
        assert(all.drop_last() =~= done);
        assert(texts(named@) =~= named_segments(all));
    }
    if n > 0 && path[0] == '/' {
        let ghost nv = named@;
        let first: Vec<char> = vec!['/'];
        assert(first@ =~= root_text());
        let mut comps: Vec<Vec<char>> = Vec::new();
        comps.push(first);
        comps.append(&mut named);
        proof {
            assert(comps@ =~= seq![first] + nv);
            assert(texts(comps@) =~= seq![root_text()] + named_segments(all));
        }
        comps
    } else if starts_dot {
        let ghost nv = named@;
        let first: Vec<char> = vec!['.'];
        assert(first@ =~= cur_text());
        let mut comps: Vec<Vec<char>> = Vec::new();
        comps.push(first);
        comps.append(&mut named);
        proof {
            assert(comps@ =~= seq![first] + nv);
            assert(texts(comps@) =~= seq![cur_text()] + named_segments(all));
        }
        comps
    } else {
        named
    }
}

/// The text of each character vector, in order.
pub open spec fn texts(v: Seq<Vec<char>>) -> Seq<Seq<char>> {
    v.map_values(|x: Vec<char>| x@)
}

/// `names` joined by single `/` separators.
pub open spec fn join_names(names: Seq<Seq<char>>) -> Seq<char>
    decreases names.len(),
{
    if names.len() == 0 {
        Seq::empty()
    } else if names.len() == 1 {
        names[0]
    } else {
        join_names(names.drop_last()) + seq!['/'] + names.last()
    }
}

/// A lexically normalized path: whether it starts at the root, and the names
/// below that.
pub struct Lexical {
    pub rooted: bool,
    pub names: Seq<Seq<char>>,
}

/// One step of lexical normalization, as `PathBuf::push` and `PathBuf::pop`
/// act on a path that so far holds `st`.
pub open spec fn lexical_step(st: Lexical, comp: Seq<char>) -> Lexical {
    if comp == root_text() {
        Lexical { rooted: true, names: Seq::empty() }
    } else if comp == cur_text() {
        st
    } else if comp == parent_text() {
        if st.names.len() > 0 {
            Lexical { rooted: st.rooted, names: st.names.drop_last() }
        } else {
            st
        }
    } else {
        Lexical { rooted: st.rooted, names: st.names.push(comp) }
    }
}

/// The lexical normalization of a sequence of components, from an empty path.
pub open spec fn lexical(comps: Seq<Seq<char>>) -> Lexical
    decreases comps.len(),
{
    if comps.len() == 0 {
        Lexical { rooted: false, names: Seq::empty() }
    } else {
        lexical_step(lexical(comps.drop_last()), comps.last())
    }
}

/// The text of a lexically normalized path.
pub open spec fn render(st: Lexical) -> Seq<char> {
    if st.rooted {
        seq!['/'] + join_names(st.names)
    } else {
        join_names(st.names)
    }
}

/// `path` with `.` components dropped and each `..` removing the name before
/// it (at the root, or with nothing before it, a `..` is dropped), without
/// looking at the filesystem.
pub open spec fn normalized(path: Seq<char>) -> Seq<char> {
    render(lexical(components(path)))
}

pub open spec fn is_absolute(path: Seq<char>) -> bool {
    path.len() > 0 && path[0] == '/'
}

/// `base.join(rel)` on Unix: an absolute `rel` replaces `base`; otherwise a
/// separator is added when `base` is non-empty and does not end in one.
pub open spec fn joined(base: Seq<char>, rel: Seq<char>) -> Seq<char> {
    if is_absolute(rel) {
        rel
    } else if base.len() > 0 && base.last() != '/' {
        base + seq!['/'] + rel
    } else {
        base + rel
    }
}

/// The absolute form of `path` for a process whose working directory is
/// `cwd`: joined to `cwd` when relative, then normalized.
pub open spec fn absolute_path(cwd: Seq<char>, path: Seq<char>) -> Seq<char> {
    normalized(if is_absolute(path) { path } else { joined(cwd, path) })
}

/// The text of `comps` once `prefix_len` leading components are removed, as
/// `Path::strip_prefix` gives it for a normalized path: the whole path when
/// nothing is removed, else the remaining names joined by `/`.
pub open spec fn stripped_text(path: Seq<char>, comps: Seq<Seq<char>>, prefix_len: int) -> Seq<char> {
    if prefix_len == 0 {
        path
    } else {
        join_names(comps.skip(prefix_len))
    }
}

pub open spec fn is_prefix(p: Seq<Seq<char>>, s: Seq<Seq<char>>) -> bool {
    p.len() <= s.len() && s.take(p.len() as int) == p
}

/// The path of `abs` below `home`, if `home` is a leading part of it
/// (compared component by component).
pub open spec fn below(home: Seq<char>, abs: Seq<char>) -> Option<Seq<char>> {
    let hc = components(home);
    let ac = components(abs);
    if is_prefix(hc, ac) {
        Some(stripped_text(abs, ac, hc.len() as int))
    } else {
        None
    }
}

/// A registry path is refused when it is absolute or has a `..` component.
pub open spec fn unsafe_relative(path: Seq<char>) -> bool {
    is_absolute(path) || components(path).contains(parent_text())
}

fn is_root_comp(seg: &Vec<char>) -> (b: bool)
    ensures
        b == (seg@ == root_text()),
{
    if seg.len() == 1 && seg[0] == '/' {
        assert(seg@ =~= root_text());
        true
    } else {
        false
    }
}

fn is_parent_comp(seg: &Vec<char>) -> (b: bool)
    ensures
        b == (seg@ == parent_text()),
{
    if seg.len() == 2 && seg[0] == '.' && seg[1] == '.' {
        assert(seg@ =~= parent_text());
        true
    } else {
        false
    }
}

/// Appends the characters of `s` to `out`.
pub(crate) fn extend_chars(out: &mut Vec<char>, s: &Vec<char>)
    ensures
        final(out)@ == old(out)@ + s@,
{
    let n = s.len();
    for i in 0..n
        invariant
            n == s@.len(),
            out@ == old(out)@ + s@.take(i as int),
    {
        out.push(s[i]);
        assert(s@.take(i + 1) == s@.take(i as int).push(s@[i as int]));
    }
    assert(s@.take(n as int) =~= s@);
}

/// Whether two character vectors hold the same characters.
pub fn same_chars(a: &Vec<char>, b: &Vec<char>) -> (r: bool)
    ensures
        r == (a@ == b@),
{
    if a.len() != b.len() {
        return false;
    }
    let n = a.len();
    for i in 0..n
        invariant
            n == a@.len(),
            n == b@.len(),
            forall|j: int| 0 <= j < i ==> a@[j] == b@[j],
    {
        if a[i] != b[i] {
            return false;
        }
    }
    assert(a@ =~= b@);
    true
}

/// Whether two lists of components are equal.
pub fn same_components(a: &Vec<Vec<char>>, b: &Vec<Vec<char>>) -> (r: bool)
    ensures
        r == (texts(a@) == texts(b@)),
{
    if a.len() != b.len() {
        proof {
            assert(texts(a@).len() != texts(b@).len());
        }
        return false;
    }
    let n = a.len();
    for i in 0..n
        invariant
            n == a@.len(),
            n == b@.len(),
            forall|j: int| 0 <= j < i ==> a@[j]@ == b@[j]@,
    {
        if !same_chars(&a[i], &b[i]) {
            proof {
                assert(texts(a@)[i as int] != texts(b@)[i as int]);
            }
            return false;
        }
    }
    assert(texts(a@) =~= texts(b@));
    true
}

/// The lexical normalization of a list of components.
fn lexical_of(comps: &Vec<Vec<char>>) -> (r: (bool, Vec<Vec<char>>))
    ensures
        r.0 == lexical(texts(comps@)).rooted,
        texts(r.1@) == lexical(texts(comps@)).names,
{
    let mut rooted = false;
    let mut names: Vec<Vec<char>> = Vec::new();
    let n = comps.len();
    for i in 0..n
        invariant
            n == comps@.len(),
            rooted == lexical(texts(comps@).take(i as int)).rooted,
            texts(names@) == lexical(texts(comps@).take(i as int)).names,
    {
        let ghost before = names@;
        proof {
            assert(texts(comps@).take(i + 1).drop_last() =~= texts(comps@).take(i as int));
        }
        let comp = &comps[i];
        if is_root_comp(comp) {
            rooted = true;
            names = Vec::new();
            assert(texts(names@) =~= Seq::<Seq<char>>::empty());
        } else if is_cur(comp) {
        } else if is_parent_comp(comp) {
            if names.len() > 0 {
                names.pop();
                assert(texts(names@) =~= texts(before).drop_last());
            }
        } else {
            names.push(comp.clone());
            assert(texts(names@) =~= texts(before).push(comp@));
        }
    }
    assert(texts(comps@).take(n as int) =~= texts(comps@));
    (rooted, names)
}

/// The text of a list of names joined by `/`.
fn join_of(names: &Vec<Vec<char>>) -> (r: Vec<char>)
    ensures
        r@ == join_names(texts(names@)),
{
    let mut out: Vec<char> = Vec::new();
    let n = names.len();
    for i in 0..n
        invariant
            n == names@.len(),
            out@ == join_names(texts(names@).take(i as int)),
    {
        proof {
            assert(texts(names@).take(i + 1).drop_last() =~= texts(names@).take(i as int));
        }
        if i > 0 {
            out.push('/');
        } else {
            assert(out@ =~= Seq::<char>::empty());
        }
        extend_chars(&mut out, &names[i]);
        assert(out@ =~= join_names(texts(names@).take(i + 1)));
    }
    assert(texts(names@).take(n as int) =~= texts(names@));
    out
}

/// The characters of `path` normalized lexically.
pub fn normalized_chars(path: &Vec<char>) -> (r: Vec<char>)
    ensures
        r@ == normalized(path@),
{
    let comps = components_of(path);
    let (rooted, names) = lexical_of(&comps);
    let joined = join_of(&names);
    if rooted {
        let mut out: Vec<char> = Vec::new();
        out.push('/');
        extend_chars(&mut out, &joined);
        assert(out@ =~= seq!['/'] + joined@);
        out
    } else {
        joined
    }
}

/// `path` normalized lexically: `.` components are dropped, and each `..`
/// removes the name before it (or nothing, at the root or at the start of a
/// relative path). The filesystem is not consulted.
pub fn normalize(path: &str) -> (r: String)
    ensures
        r@ == normalized(path@),
{
    let chars = crate::text::chars_of(path);
    let out = normalized_chars(&chars);
    crate::text::string_of(out.as_slice())
}

/// The characters of `base.join(rel)`.
pub fn joined_chars(base: &Vec<char>, rel: &Vec<char>) -> (r: Vec<char>)
    ensures
        r@ == joined(base@, rel@),
{
    if rel.len() > 0 && rel[0] == '/' {
        rel.clone()
    } else if base.len() > 0 && base[base.len() - 1] != '/' {
        let mut out = base.clone();
        out.push('/');
        extend_chars(&mut out, rel);
        out
    } else {
        let mut out = base.clone();
        extend_chars(&mut out, rel);
        out
    }
}

/// `base.join(rel)`: `rel` alone when it is absolute, else `rel` appended to
/// `base` after a `/` where `base` needs one.
pub fn join_path(base: &str, rel: &str) -> (r: String)
    ensures
        r@ == joined(base@, rel@),
{
    let b = crate::text::chars_of(base);
    let p = crate::text::chars_of(rel);
    let out = joined_chars(&b, &p);
    crate::text::string_of(out.as_slice())
}

/// The absolute, normalized form of `path` for a working directory `cwd`.
pub fn absolute(cwd: &str, path: &str) -> (r: String)
    ensures
        r@ == absolute_path(cwd@, path@),
{
    let c = crate::text::chars_of(cwd);
    let p = crate::text::chars_of(path);
    let full = if p.len() > 0 && p[0] == '/' { p } else { joined_chars(&c, &p) };
    let out = normalized_chars(&full);
    crate::text::string_of(out.as_slice())
}

fn components_prefix(p: &Vec<Vec<char>>, s: &Vec<Vec<char>>) -> (r: bool)
    ensures
        r == is_prefix(texts(p@), texts(s@)),
{
    if p.len() > s.len() {
        return false;
    }
    let n = p.len();
    for i in 0..n
        invariant
            n == p@.len(),
            n <= s@.len(),
            forall|j: int| 0 <= j < i ==> p@[j]@ == s@[j]@,
    {
        if !same_chars(&p[i], &s[i]) {
            proof {
                assert(texts(s@).take(n as int)[i as int] != texts(p@)[i as int]);
            }
            return false;
        }
    }
    assert(texts(s@).take(n as int) =~= texts(p@));
    true
}

/// The path of `abs` below `home`, compared component by component.
pub fn strip_home(home: &str, abs: &str) -> (r: Option<String>)
    ensures
        r matches Some(t) ==> below(home@, abs@) == Some(t@),
        r is None ==> below(home@, abs@) is None,
{
    let h = crate::text::chars_of(home);
    let a = crate::text::chars_of(abs);
    let hc = components_of(&h);
    let ac = components_of(&a);
    if !components_prefix(&hc, &ac) {
        return None;
    }
    if hc.len() == 0 {
        return Some(crate::text::string_of(a.as_slice()));
    }
    let mut rest: Vec<Vec<char>> = Vec::new();
    let k = hc.len();
    let n = ac.len();
    for i in k..n
        invariant
            k <= n,
            n == ac@.len(),
            texts(rest@) == texts(ac@).subrange(k as int, i as int),
    {
        let ghost before = rest@;
        let c = ac[i].clone();
        assert(c@ == ac@[i as int]@);
        rest.push(c);
        assert(texts(rest@) =~= texts(before).push(c@));
        assert(texts(rest@) =~= texts(ac@).subrange(k as int, i + 1));
    }
    assert(texts(ac@).subrange(k as int, n as int) =~= texts(ac@).skip(k as int));
    let text = join_of(&rest);
    Some(crate::text::string_of(text.as_slice()))
}

/// The path below `home` of `path`, made absolute against `cwd`; `None` when
/// the absolute path is not below `home`.
pub fn relative_destination(home: &str, cwd: &str, path: &str) -> (r: Option<String>)
    ensures
        r matches Some(t) ==> below(home@, absolute_path(cwd@, path@)) == Some(t@),
        r is None ==> below(home@, absolute_path(cwd@, path@)) is None,
{
    let abs = absolute(cwd, path);
    strip_home(home, abs.as_str())
}

/// `Ok` when `path` is relative and has no `..` component; a registry may
/// only name such paths.
pub fn validate_relative(path: &str) -> (r: Result<(), UnsafePath>)
    ensures
        r is Ok <==> !unsafe_relative(path@),
{
    let p = crate::text::chars_of(path);
    if p.len() > 0 && p[0] == '/' {
        return Err(UnsafePath);
    }
    let comps = components_of(&p);
    let n = comps.len();
    for i in 0..n
        invariant
            n == comps@.len(),
            texts(comps@) == components(p@),
            p@ == path@,
            forall|j: int| 0 <= j < i ==> texts(comps@)[j] != parent_text(),
    {
        if is_parent_comp(&comps[i]) {
            assert(texts(comps@)[i as int] == parent_text());
            assert(components(p@)[i as int] == parent_text());
            assert(components(p@).contains(parent_text()));
            return Err(UnsafePath);
        }
    }
    assert(!components(p@).contains(parent_text()));
    Ok(())
}

/// A path that a registry may not hold: absolute, or with a `..` component.
#[derive(Debug, Clone, Copy, PartialEq, Eq)]
pub struct UnsafePath;

/// A name that a normalized path can hold: not empty, without `/`, and
/// neither `.` nor `..`.
pub open spec fn plain_name(n: Seq<char>) -> bool {
    n.len() > 0 && !n.contains('/') && n != cur_text() && n != parent_text()
}

pub open spec fn plain_names(names: Seq<Seq<char>>) -> bool {
    forall|i: int| 0 <= i < names.len() ==> plain_name(#[trigger] names[i])
}

/// The components of a normalized path: the root, if any, then its names.
pub open spec fn lexical_components(st: Lexical) -> Seq<Seq<char>> {
    if st.rooted {
        seq![root_text()] + st.names
    } else {
        st.names
    }
}

proof fn lemma_segments_no_slash(s: Seq<char>)
    ensures
        forall|k: int| 0 <= k < segments(s).len() ==> !(#[trigger] segments(s)[k]).contains('/'),
    decreases s.len(),
{
    if s.len() > 0 {
        let p = segments(s.drop_last());
        lemma_segments_no_slash(s.drop_last());
        lemma_segments_nonempty(s.drop_last());
        if s.last() != '/' {
            assert forall|k: int| 0 <= k < segments(s).len() implies !(#[trigger] segments(s)[k]).contains('/') by {
                if k == p.len() - 1 {
                    let g = p.last().push(s.last());
                    assert(segments(s)[k] == g);
                    if g.contains('/') {
                        let j = choose|j: int| 0 <= j < g.len() && g[j] == '/';
                        if j < p.last().len() {
                            assert(p.last()[j] == '/');
                            assert(p.last().contains('/'));
                        }
                    }
                } else {
                    assert(segments(s)[k] == p[k]);
                }
            }
        } else {
            assert forall|k: int| 0 <= k < segments(s).len() implies !(#[trigger] segments(s)[k]).contains('/') by {
                if k < p.len() {
                    assert(segments(s)[k] == p[k]);
                } else {
                    assert(segments(s)[k] =~= Seq::<char>::empty());
                }
            }
        }
    }
}

/// Splitting at a separator splits the segments there.
proof fn lemma_segments_concat(a: Seq<char>, b: Seq<char>)
    ensures
        segments(a + seq!['/'] + b) == segments(a) + segments(b),
    decreases b.len(),
{
    let s = a + seq!['/'] + b;
    if b.len() == 0 {
        assert(s.drop_last() =~= a);
        assert(segments(s) =~= segments(a) + segments(b));
    } else {
        assert(s.drop_last() =~= a + seq!['/'] + b.drop_last());
        lemma_segments_concat(a, b.drop_last());
        lemma_segments_nonempty(b.drop_last());
        lemma_segments_nonempty(a);
        assert(segments(s) =~= segments(a) + segments(b));
    }
}

/// A piece without `/` is a single segment.
proof fn lemma_segments_plain(g: Seq<char>)
    requires
        !g.contains('/'),
    ensures
        segments(g) == seq![g],
    decreases g.len(),
{
    if g.len() > 0 {
        assert(g.drop_last().len() < g.len());
        if g.drop_last().contains('/') {
            let j = choose|j: int| 0 <= j < g.drop_last().len() && g.drop_last()[j] == '/';
            assert(g[j] == '/');
        }
        assert(g[g.len() - 1] != '/');
        lemma_segments_plain(g.drop_last());
        assert(g.drop_last().push(g.last()) =~= g);
        assert(segments(g) =~= seq![g]);
    } else {
        assert(g =~= Seq::<char>::empty());
        assert(segments(g) =~= seq![g]);
    }
}

proof fn lemma_named_of_empty()
    ensures
        named_segments(segments(Seq::<char>::empty())) == Seq::<Seq<char>>::empty(),
{
    let e = Seq::<char>::empty();
    assert(segments(e) == seq![e]);
    assert(seq![e].drop_last() =~= Seq::<Seq<char>>::empty());
    assert(seq![e].last() == e);
    assert(named_segments(Seq::<Seq<char>>::empty()) =~= Seq::<Seq<char>>::empty());
    assert(named_segments(seq![e]) =~= Seq::<Seq<char>>::empty());
}

/// Names without `/`, joined by `/`, split back into the same names.
proof fn lemma_segments_join(names: Seq<Seq<char>>)
    requires
        names.len() > 0,
        forall|i: int| 0 <= i < names.len() ==> !(#[trigger] names[i]).contains('/'),
    ensures
        segments(join_names(names)) == names,
    decreases names.len(),
{
    if names.len() == 1 {
        lemma_segments_plain(names[0]);
        assert(seq![names[0]] =~= names);
    } else {
        lemma_segments_join(names.drop_last());
        lemma_segments_concat(join_names(names.drop_last()), names.last());
        lemma_segments_plain(names.last());
        assert(names.drop_last() + seq![names.last()] =~= names);
    }
}

proof fn lemma_named_concat(a: Seq<Seq<char>>, b: Seq<Seq<char>>)
    ensures
        named_segments(a + b) == named_segments(a) + named_segments(b),
    decreases b.len(),
{
    if b.len() == 0 {
        assert(a + b =~= a);
        assert(named_segments(a) + named_segments(b) =~= named_segments(a));
    } else {
        assert((a + b).drop_last() =~= a + b.drop_last());
        lemma_named_concat(a, b.drop_last());
        assert(named_segments(a + b) =~= named_segments(a) + named_segments(b));
    }
}

proof fn lemma_named_plain(names: Seq<Seq<char>>)
    requires
        plain_names(names),
    ensures
        named_segments(names) == names,
    decreases names.len(),
{
    if names.len() > 0 {
        lemma_named_plain(names.drop_last());
        assert(plain_name(names[names.len() - 1]));
        assert(names.drop_last().push(names.last()) =~= names);
    } else {
        assert(named_segments(names) =~= names);
    }
}

proof fn lemma_join_first(names: Seq<Seq<char>>)
    requires
        names.len() > 0,
    ensures
        join_names(names).len() >= names[0].len(),
        join_names(names).take(names[0].len() as int) == names[0],
    decreases names.len(),
{
    if names.len() > 1 {
        lemma_join_first(names.drop_last());
        let j = join_names(names.drop_last());
        assert((j + seq!['/'] + names.last()).take(names[0].len() as int) =~= j.take(
            names[0].len() as int,
        ));
    }
}

/// The components of a normalized path, read back, are its root and names.
pub proof fn lemma_components_of_render(st: Lexical)
    requires
        plain_names(st.names),
    ensures
        components(render(st)) == lexical_components(st),
{
    let j = join_names(st.names);
    if st.names.len() > 0 {
        assert forall|i: int| 0 <= i < st.names.len() implies !(#[trigger] st.names[i]).contains('/') by {
            assert(plain_name(st.names[i]));
        }
        lemma_segments_join(st.names);
        lemma_named_plain(st.names);
        lemma_join_first(st.names);
        assert(plain_name(st.names[0]));
        assert(j[0] == st.names[0][0]);
        if j[0] == '/' {
            assert(st.names[0].contains('/'));
        }
    } else {
        assert(j =~= Seq::<char>::empty());
    }
    if st.rooted {
        let r = render(st);
        assert(r =~= Seq::<char>::empty() + seq!['/'] + j);
        lemma_segments_concat(Seq::<char>::empty(), j);
        lemma_named_concat(segments(Seq::<char>::empty()), segments(j));
        lemma_named_of_empty();
        if st.names.len() == 0 {
            assert(named_segments(segments(j)) =~= Seq::<Seq<char>>::empty());
        }
        assert(components(r) =~= lexical_components(st));
    } else {
        if st.names.len() == 0 {
            lemma_named_of_empty();
            assert(segments(j)[0] =~= Seq::<char>::empty());
            assert(components(j) =~= lexical_components(st));
        } else {
            assert(components(j) =~= lexical_components(st));
        }
    }
}

/// Normalizing the components of a normalized path gives it back.
pub proof fn lemma_lexical_of_components(st: Lexical)
    requires
        plain_names(st.names),
    ensures
        lexical(lexical_components(st)) == st,
    decreases st.names.len(),
{
    if st.names.len() == 0 {
        if st.rooted {
            assert(lexical_components(st).drop_last() =~= Seq::<Seq<char>>::empty());
        }
        assert(lexical(lexical_components(st)).names =~= st.names);
    } else {
        let shorter = Lexical { rooted: st.rooted, names: st.names.drop_last() };
        lemma_lexical_of_components(shorter);
        assert(lexical_components(st).drop_last() =~= lexical_components(shorter));
        assert(lexical_components(st).last() == st.names.last());
        assert(plain_name(st.names[st.names.len() - 1]));
        assert(root_text()[0] == '/');
        assert(st.names.last() != root_text()) by {
            if st.names.last() == root_text() {
                assert(st.names.last().contains('/'));
            }
        }
        assert(lexical(lexical_components(st)).names =~= st.names);
    }
}

/// Every component is the root, a leading `.`, or a non-empty piece
/// without `/`.
pub open spec fn component_shape(c: Seq<char>) -> bool {
    c == root_text() || (c.len() > 0 && !c.contains('/'))
}

proof fn lemma_named_shape(segs: Seq<Seq<char>>)
    requires
        forall|k: int| 0 <= k < segs.len() ==> !(#[trigger] segs[k]).contains('/'),
    ensures
        forall|k: int|
            0 <= k < named_segments(segs).len() ==> component_shape(#[trigger] named_segments(segs)[k]),
    decreases segs.len(),
{
    if segs.len() > 0 {
        lemma_named_shape(segs.drop_last());
        assert(!segs[segs.len() - 1].contains('/'));
        let r = named_segments(segs.drop_last());
        assert forall|k: int| 0 <= k < named_segments(segs).len() implies component_shape(
            #[trigger] named_segments(segs)[k],
        ) by {
            if k < r.len() {
                assert(named_segments(segs)[k] == r[k]);
            }
        }
    }
}

pub proof fn lemma_components_shape(s: Seq<char>)
    ensures
        forall|k: int| 0 <= k < components(s).len() ==> component_shape(#[trigger] components(s)[k]),
{
    lemma_segments_no_slash(s);
    lemma_named_shape(segments(s));
    let n = named_segments(segments(s));
    assert forall|k: int| 0 <= k < components(s).len() implies component_shape(#[trigger] components(s)[k]) by {
        if s.len() > 0 && s[0] == '/' {
            if k > 0 {
                assert(components(s)[k] == n[k - 1]);
            }
        } else if segments(s)[0] == cur_text() {
            if k > 0 {
                assert(components(s)[k] == n[k - 1]);
            } else {
                assert(!cur_text().contains('/'));
            }
        }
    }
}

/// Lexical normalization keeps only plain names.
pub proof fn lemma_lexical_plain(comps: Seq<Seq<char>>)
    requires
        forall|k: int| 0 <= k < comps.len() ==> component_shape(#[trigger] comps[k]),
    ensures
        plain_names(lexical(comps).names),
    decreases comps.len(),
{
    if comps.len() > 0 {
        lemma_lexical_plain(comps.drop_last());
        let st = lexical(comps.drop_last());
        let c = comps.last();
        assert(component_shape(comps[comps.len() - 1]));
        let n = lexical(comps).names;
        assert forall|i: int| 0 <= i < n.len() implies plain_name(#[trigger] n[i]) by {
            if c == root_text() {
            } else if c == cur_text() {
            } else if c == parent_text() {
                if st.names.len() > 0 {
                    assert(n[i] == st.names[i]);
                }
            } else {
                if i < st.names.len() {
                    assert(n[i] == st.names[i]);
                }
            }
        }
    }
}

/// The lexical form of a path holds only plain names.
pub proof fn lemma_normalized_plain(path: Seq<char>)
    ensures
        plain_names(lexical(components(path)).names),
        components(normalized(path)) == lexical_components(lexical(components(path))),
{
    lemma_components_shape(path);
    lemma_lexical_plain(components(path));
    lemma_components_of_render(lexical(components(path)));
}

/// Normalizing a normalized path changes nothing.
pub proof fn lemma_normalize_idempotent(path: Seq<char>)
    ensures
        normalized(normalized(path)) == normalized(path),
{
    lemma_normalized_plain(path);
    lemma_lexical_of_components(lexical(components(path)));
}

proof fn lemma_segments_first(s: Seq<char>)
    requires
        s.len() > 0,
    ensures
        s[0] == '/' ==> segments(s)[0].len() == 0 && segments(s).len() >= 2,
        s[0] != '/' ==> segments(s)[0].len() > 0 && segments(s)[0][0] == s[0],
    decreases s.len(),
{
    if s.len() == 1 {
        assert(s.drop_last() =~= Seq::<char>::empty());
        assert(s.last() == s[0]);
    } else {
        let d = s.drop_last();
        lemma_segments_first(d);
        lemma_segments_nonempty(d);
        assert(d[0] == s[0]);
    }
}

/// A non-empty path has at least one component.
pub proof fn lemma_components_nonempty(s: Seq<char>)
    requires
        s.len() > 0,
    ensures
        components(s).len() > 0,
{
    lemma_segments_first(s);
    lemma_segments_nonempty(s);
    if s[0] != '/' {
        let segs = segments(s);
        if segs[0] != cur_text() {
            assert(segs =~= seq![segs[0]] + segs.skip(1));
            lemma_named_concat(seq![segs[0]], segs.skip(1));
            assert(seq![segs[0]].drop_last() =~= Seq::<Seq<char>>::empty());
            assert(named_segments(Seq::<Seq<char>>::empty()) =~= Seq::<Seq<char>>::empty());
            assert(named_segments(seq![segs[0]]).len() == 1);
        }
    }
}

/// A path made of plain names, with or without `files/` before it, is
/// relative and has no `..` component.
pub proof fn lemma_plain_path_safe(names: Seq<Seq<char>>, prefix: Seq<char>)
    requires
        plain_names(names),
        prefix.len() == 0 || plain_name(prefix),
    ensures
        !unsafe_relative(if prefix.len() == 0 {
            join_names(names)
        } else {
            prefix + seq!['/'] + join_names(names)
        }),
{
    let j = join_names(names);
    let segs_j = segments(j);
    let named_j = named_segments(segs_j);
    // The segments of the joined names, and their named ones.
    if names.len() > 0 {
        assert forall|i: int| 0 <= i < names.len() implies !(#[trigger] names[i]).contains('/') by {
            assert(plain_name(names[i]));
        }
        lemma_segments_join(names);
        lemma_named_plain(names);
        lemma_join_first(names);
        assert(plain_name(names[0]));
        assert(j[0] == names[0][0]);
        if j[0] == '/' {
            assert(names[0].contains('/'));
        }
    } else {
        assert(j =~= Seq::<char>::empty());
        lemma_named_of_empty();
    }
    assert(!named_j.contains(parent_text())) by {
        if named_j.contains(parent_text()) {
            let k = named_j.index_of(parent_text());
            assert(plain_name(names[k]));
        }
    }
    if prefix.len() == 0 {
        if names.len() > 0 {
            assert(names[0] != cur_text());
            assert(components(j) == named_j);
        } else {
            assert(segs_j[0] =~= Seq::<char>::empty());
            assert(components(j) == named_j);
        }
    } else {
        let full = prefix + seq!['/'] + j;
        lemma_segments_concat(prefix, j);
        lemma_segments_plain(prefix);
        assert(full[0] == prefix[0]);
        if prefix[0] == '/' {
            assert(prefix.contains('/'));
        }
        assert(segments(full)[0] == prefix);
        lemma_named_concat(seq![prefix], segs_j);
        assert(seq![prefix].drop_last() =~= Seq::<Seq<char>>::empty());
        assert(named_segments(Seq::<Seq<char>>::empty()) =~= Seq::<Seq<char>>::empty());
        assert(named_segments(seq![prefix]) =~= seq![prefix]);
        assert(components(full) == seq![prefix] + named_j);
        assert(!components(full).contains(parent_text())) by {
            if components(full).contains(parent_text()) {
                let k = components(full).index_of(parent_text());
                if k == 0 {
                    assert(prefix == parent_text());
                } else {
                    assert(named_j[k - 1] == parent_text());
                }
            }
        }
    }
}

/// The root can only be the first component.
pub proof fn lemma_components_root_first(s: Seq<char>, k: int)
    requires
        0 <= k < components(s).len(),
        components(s)[k] == root_text(),
    ensures
        k == 0,
        is_absolute(s),
{
    lemma_segments_no_slash(s);
    lemma_named_shape_plainish(segments(s));
    let n = named_segments(segments(s));
    assert(root_text().contains('/')) by {
        assert(root_text()[0] == '/');
    }
    if s.len() > 0 && s[0] == '/' {
        if k > 0 {
            assert(components(s)[k] == n[k - 1]);
        }
    } else if segments(s)[0] == cur_text() {
        if k > 0 {
            assert(components(s)[k] == n[k - 1]);
        } else {
            assert(cur_text()[0] == '.');
        }
    } else {
        assert(components(s)[k] == n[k]);
    }
}

proof fn lemma_named_shape_plainish(segs: Seq<Seq<char>>)
    requires
        forall|k: int| 0 <= k < segs.len() ==> !(#[trigger] segs[k]).contains('/'),
    ensures
        forall|k: int| 0 <= k < named_segments(segs).len() ==> !(#[trigger] named_segments(segs)[k]).contains('/'),
    decreases segs.len(),
{
    if segs.len() > 0 {
        lemma_named_shape_plainish(segs.drop_last());
        assert(!segs[segs.len() - 1].contains('/'));
        let r = named_segments(segs.drop_last());
        assert forall|k: int| 0 <= k < named_segments(segs).len() implies !(#[trigger] named_segments(segs)[k]).contains('/') by {
            if k < r.len() {
                assert(named_segments(segs)[k] == r[k]);
            }
        }
    }
}

/// Joining plain names below a non-empty path appends them to its
/// components.
pub proof fn lemma_components_join_plain(h: Seq<char>, rest: Seq<Seq<char>>)
    requires
        h.len() > 0,
        plain_names(rest),
    ensures
        components(joined(h, join_names(rest))) == components(h) + rest,
{
    let d = join_names(rest);
    let segs_d = segments(d);
    if rest.len() > 0 {
        assert forall|i: int| 0 <= i < rest.len() implies !(#[trigger] rest[i]).contains('/') by {
            assert(plain_name(rest[i]));
        }
        lemma_segments_join(rest);
        lemma_named_plain(rest);
        lemma_join_first(rest);
        assert(plain_name(rest[0]));
        assert(d[0] == rest[0][0]);
        if d[0] == '/' {
            assert(rest[0].contains('/'));
        }
    } else {
        assert(d =~= Seq::<char>::empty());
        lemma_named_of_empty();
    }
    assert(!is_absolute(d));
    assert(named_segments(segs_d) == rest);
    let full = joined(h, d);
    lemma_segments_nonempty(h);
    if h.last() != '/' {
        assert(full == h + seq!['/'] + d);
        lemma_segments_concat(h, d);
        lemma_named_concat(segments(h), segs_d);
        assert(full[0] == h[0]);
        assert(segments(full)[0] == segments(h)[0]);
    } else {
        let hp = h.drop_last();
        assert(full =~= hp + seq!['/'] + d);
        assert(h =~= hp.push('/'));
        lemma_segments_concat(hp, d);
        lemma_segments_nonempty(hp);
        assert(segments(h) == segments(hp).push(Seq::empty()));
        lemma_named_concat(segments(hp), segs_d);
        assert(segments(hp).push(Seq::<char>::empty()).drop_last() =~= segments(hp));
        assert(named_segments(segments(h)) == named_segments(segments(hp)));
        assert(full[0] == h[0]);
        assert(segments(full)[0] == segments(h)[0]);
    }
    assert(named_segments(segments(full)) == named_segments(segments(h)) + rest);
    assert(components(full) =~= components(h) + rest);
}

/// The empty path has no component.
pub proof fn lemma_components_empty()
    ensures
        components(Seq::<char>::empty()) == Seq::<Seq<char>>::empty(),
{
    lemma_named_of_empty();
    assert(segments(Seq::<char>::empty())[0] =~= Seq::<char>::empty());
}

} // verus!
