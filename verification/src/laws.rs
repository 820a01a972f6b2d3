//! Properties that hold across the library's functions: what `add` and
//! `remove` do to the registry, and how the paths they read relate to the
//! paths that the other commands use.

use vstd::prelude::*;
use crate::cli::{
    command_line, flag_like, help_flag, inline_name, nothing_read, read_args, subcommand_named, version_flag,
    ArgsRead, CommandView, Subcommand, UsageError,
};
use crate::commands::{
    add_decision, conflicts, count_true, destination_of, points_at, remove_decision, AddError, RemoveError,
    RestoreOutcome,
};
use crate::path::{
    absolute_path, component_shape, components, cur_text, is_absolute, is_prefix, join_names, joined,
    lemma_components_empty, lemma_components_join_plain, lemma_components_nonempty,
    lemma_components_of_render, lemma_components_root_first, lemma_components_shape,
    lemma_lexical_of_components, lemma_normalized_plain, lemma_plain_path_safe, lexical, lexical_components,
    normalized, parent_text, plain_name, plain_names, root_text, segments, Lexical,
};
use crate::registry::{
    blank, entry_line, entry_problem, files_prefix, lemma_first_position, registers, registry_problem, EntryView,
};

verus! {

/// What a destination below a non-empty home directory is made of: the
/// components of the absolute path after those of `home`, all plain names.
proof fn lemma_destination_plain(home: Seq<char>, cwd: Seq<char>, path: Seq<char>)
    requires
        home.len() > 0,
        destination_of(home, cwd, path) is Some,
    ensures
        ({
            let ac = components(absolute_path(cwd, path));
            let k = components(home).len() as int;
            &&& 0 < k <= ac.len()
            &&& ac.take(k) == components(home)
            &&& plain_names(ac.skip(k))
            &&& destination_of(home, cwd, path) == Some(join_names(ac.skip(k)))
        }),
{
    let x = if is_absolute(path) { path } else { joined(cwd, path) };
    let abs = absolute_path(cwd, path);
    assert(abs == normalized(x));
    lemma_normalized_plain(x);
    let st = lexical(components(x));
    let ac = components(abs);
    assert(ac == lexical_components(st));
    let hc = components(home);
    lemma_components_nonempty(home);
    let k = hc.len() as int;
    assert(is_prefix(hc, ac));
    let rest = ac.skip(k);
    assert forall|i: int| 0 <= i < rest.len() implies plain_name(#[trigger] rest[i]) by {
        assert(rest[i] == ac[k + i]);
        if st.rooted {
            assert(ac[k + i] == st.names[k + i - 1]);
        } else {
            assert(ac[k + i] == st.names[k + i]);
        }
    }
}

/// **The destination leads back to the path that was added.** When `dotman
/// add` or `dotman remove` reads `path` as the destination `d`, the installed
/// path that `restore`, `status` and `remove` use, `home.join(d)`, has the same
/// components as the absolute form of `path`: it names the same location.
pub proof fn lemma_install_path_is_the_added_path(home: Seq<char>, cwd: Seq<char>, path: Seq<char>)
    requires
        destination_of(home, cwd, path) is Some,
    ensures
        components(joined(home, destination_of(home, cwd, path)->0)) == components(absolute_path(cwd, path)),
{
    let abs = absolute_path(cwd, path);
    if home.len() == 0 {
        lemma_components_empty();
        assert(components(home) =~= Seq::<Seq<char>>::empty());
        assert(destination_of(home, cwd, path)->0 == abs);
        assert(joined(home, abs) =~= abs);
    } else {
        lemma_destination_plain(home, cwd, path);
        let ac = components(abs);
        let k = components(home).len() as int;
        lemma_components_join_plain(home, ac.skip(k));
        assert(ac.take(k) + ac.skip(k) =~= ac);
    }
}

/// **`dotman add` keeps the registry loadable.** When the registry passes the
/// checks of `Registry::validate` and `add` places a path (for a non-empty
/// home directory), the registry with the new entry passes them too, provided
/// the entry's name, if any, is neither blank nor already used. (`add` itself
/// does not check the name.)
pub proof fn lemma_add_keeps_registry_valid(
    version: u32,
    es: Seq<EntryView>,
    home: Seq<char>,
    cwd: Seq<char>,
    path: Seq<char>,
    name: Option<Seq<char>>,
)
    requires
        registry_problem(version, es) is None,
        home.len() > 0,
        add_decision(es, home, cwd, path, false) is Ok,
        name matches Some(n) ==> !blank(n) && forall|j: int| 0 <= j < es.len() ==> #[trigger] es[j].name != Some(n),
    ensures
        ({
            let d = add_decision(es, home, cwd, path, false)->Ok_0;
            registry_problem(
                version,
                es.push(EntryView { name: name, source: files_prefix() + d, destination: d }),
            ) is None
        }),
{
    let d = add_decision(es, home, cwd, path, false)->Ok_0;
    let e = EntryView { name: name, source: files_prefix() + d, destination: d };
    lemma_destination_plain(home, cwd, path);
    let names = components(absolute_path(cwd, path)).skip(components(home).len() as int);
    let files = seq!['f', 'i', 'l', 'e', 's'];
    assert(!files.contains('/'));
    assert(plain_name(files));
    lemma_plain_path_safe(names, Seq::<char>::empty());
    lemma_plain_path_safe(names, files);
    assert(files_prefix() + d =~= files + seq!['/'] + join_names(names));
    assert(e.source.take(6) =~= files_prefix());
    let pushed = es.push(e);
    assert(pushed.drop_last() =~= es);
    assert(!registers(es, d));
    assert(entry_problem(es, e, es.len() as usize) is None);
}

/// **`dotman remove` undoes `dotman add`.** When `add` places a path, the
/// registry with the new entry makes `remove` of the same path pick that
/// entry, the last one, and removing it gives back the registry as it was.
pub proof fn lemma_remove_undoes_add(
    es: Seq<EntryView>,
    home: Seq<char>,
    cwd: Seq<char>,
    path: Seq<char>,
    e: EntryView,
)
    requires
        add_decision(es, home, cwd, path, false) == Ok::<Seq<char>, AddError>(e.destination),
    ensures
        remove_decision(es.push(e), home, cwd, path) == Ok::<int, RemoveError>(es.len() as int),
        es.push(e).remove(es.len() as int) == es,
{
    lemma_first_position(es, e.destination);
    assert(es.push(e).drop_last() =~= es);
    assert(es.push(e).remove(es.len() as int) =~= es);
}

/// **A link made by `dotman` is recognized as its own.** A link whose target
/// reads exactly `target` points at `target`, so `restore` keeps it, `status`
/// counts it healthy and `remove` accepts it, whenever `target` has no `.`
/// or `..` component (otherwise normalizing the link's target changes it).
pub proof fn lemma_own_link_points_at_target(target: Seq<char>)
    requires
        !components(target).contains(parent_text()),
        !components(target).contains(cur_text()),
    ensures
        points_at(target, target),
{
    let comps = components(target);
    lemma_components_shape(target);
    let rooted = is_absolute(target);
    let names = if rooted { comps.skip(1) } else { comps };
    let st = Lexical { rooted: rooted, names: names };
    assert(plain_names(names)) by {
        assert forall|i: int| 0 <= i < names.len() implies plain_name(#[trigger] names[i]) by {
            let k = if rooted { i + 1 } else { i };
            assert(names[i] == comps[k]);
            assert(component_shape(comps[k]));
            if comps[k] == root_text() {
                lemma_components_root_first(target, k);
            }
            assert(comps[k] != cur_text());
            assert(comps[k] != parent_text());
        }
    }
    assert(comps =~= lexical_components(st)) by {
        if !rooted {
            if segments(target)[0] == cur_text() {
                assert(comps[0] == cur_text());
            }
        }
    }
    lemma_lexical_of_components(st);
    lemma_components_of_render(st);
}

/// **`dotman add` refuses a path as registered only for its own
/// destination.** A path that is not a symbolic link and lies below the home
/// directory at `d` is placed at `d` whenever no entry has exactly the
/// destination `d`; and when it is refused as registered, some entry has
/// exactly that destination.
pub proof fn lemma_add_refuses_only_the_same_destination(
    es: Seq<EntryView>,
    home: Seq<char>,
    cwd: Seq<char>,
    path: Seq<char>,
    d: Seq<char>,
)
    requires
        destination_of(home, cwd, path) == Some(d),
    ensures
        (forall|j: int| 0 <= j < es.len() ==> #[trigger] es[j].destination != d) ==> add_decision(
            es,
            home,
            cwd,
            path,
            false,
        ) == Ok::<Seq<char>, AddError>(d),
        add_decision(es, home, cwd, path, false) == Err::<Seq<char>, AddError>(AddError::AlreadyRegistered)
            ==> exists|j: int| 0 <= j < es.len() && #[trigger] es[j].destination == d,
{
}

/// **Every conflict counts, wherever it stands.** The number of conflicts of
/// two runs one after the other is the sum of their numbers; a single
/// outcome counts one exactly when it is a conflict; there are no conflicts
/// exactly when no outcome is a conflict, so `restore` fails exactly when some
/// entry ended in conflict.
pub proof fn lemma_conflicts_add_up(s: Seq<RestoreOutcome>, t: Seq<RestoreOutcome>)
    ensures
        conflicts(s + t) == conflicts(s) + conflicts(t),
        conflicts(seq![RestoreOutcome::Conflict]) == 1,
        conflicts(seq![RestoreOutcome::AlreadyLinked]) == 0,
        conflicts(seq![RestoreOutcome::Restored]) == 0,
        conflicts(s) <= s.len(),
        conflicts(s) == 0 <==> !s.contains(RestoreOutcome::Conflict),
    decreases t.len(),
{
    lemma_conflicts_bounds(s);
    let e = Seq::<RestoreOutcome>::empty();
    assert(seq![RestoreOutcome::Conflict].drop_last() =~= e);
    assert(seq![RestoreOutcome::AlreadyLinked].drop_last() =~= e);
    assert(seq![RestoreOutcome::Restored].drop_last() =~= e);
    assert(conflicts(e) == 0);
    assert(seq![RestoreOutcome::Conflict].last() == RestoreOutcome::Conflict);
    assert(seq![RestoreOutcome::AlreadyLinked].last() == RestoreOutcome::AlreadyLinked);
    assert(seq![RestoreOutcome::Restored].last() == RestoreOutcome::Restored);
    if t.len() == 0 {
        assert(s + t =~= s);
    } else {
        lemma_conflicts_add_up(s, t.drop_last());
        assert((s + t).drop_last() =~= s + t.drop_last());
        assert((s + t).last() == t.last());
    }
}

proof fn lemma_conflicts_bounds(s: Seq<RestoreOutcome>)
    ensures
        conflicts(s) <= s.len(),
        conflicts(s) == 0 <==> !s.contains(RestoreOutcome::Conflict),
    decreases s.len(),
{
    if s.len() > 0 {
        let p = s.drop_last();
        lemma_conflicts_bounds(p);
        if s.contains(RestoreOutcome::Conflict) && s.last() != RestoreOutcome::Conflict {
            let i = s.index_of(RestoreOutcome::Conflict);
            assert(i < s.len() - 1);
            assert(p[i] == RestoreOutcome::Conflict);
            assert(p.contains(RestoreOutcome::Conflict));
        }
        if p.contains(RestoreOutcome::Conflict) {
            let i = p.index_of(RestoreOutcome::Conflict);
            assert(s[i] == RestoreOutcome::Conflict);
        }
        if s.last() == RestoreOutcome::Conflict {
            assert(s[s.len() - 1] == RestoreOutcome::Conflict);
        }
    }
}

/// **Every true flag counts, wherever it stands.** The count of two lists one
/// after the other is the sum of their counts; a single flag counts one
/// exactly when it is true; a list of only true flags counts its length, and
/// a list without one counts nothing.
pub proof fn lemma_count_true_adds_up(s: Seq<bool>, t: Seq<bool>)
    ensures
        count_true(s + t) == count_true(s) + count_true(t),
        count_true(seq![true]) == 1,
        count_true(seq![false]) == 0,
        (forall|i: int| 0 <= i < s.len() ==> #[trigger] s[i]) ==> count_true(s) == s.len(),
        (forall|i: int| 0 <= i < s.len() ==> !#[trigger] s[i]) ==> count_true(s) == 0,
    decreases t.len(),
{
    lemma_count_true_extremes(s);
    let e = Seq::<bool>::empty();
    assert(seq![true].drop_last() =~= e);
    assert(seq![false].drop_last() =~= e);
    assert(count_true(e) == 0);
    assert(seq![true].last() == true);
    assert(seq![false].last() == false);
    if t.len() == 0 {
        assert(s + t =~= s);
    } else {
        lemma_count_true_adds_up(s, t.drop_last());
        assert((s + t).drop_last() =~= s + t.drop_last());
        assert((s + t).last() == t.last());
    }
}

proof fn lemma_count_true_extremes(s: Seq<bool>)
    ensures
        (forall|i: int| 0 <= i < s.len() ==> #[trigger] s[i]) ==> count_true(s) == s.len(),
        (forall|i: int| 0 <= i < s.len() ==> !#[trigger] s[i]) ==> count_true(s) == 0,
    decreases s.len(),
{
    if s.len() > 0 {
        let p = s.drop_last();
        lemma_count_true_extremes(p);
        assert forall|i: int| 0 <= i < p.len() implies p[i] == s[i] by {}
        assert(s.last() == s[s.len() - 1]);
    }
}

/// **A name puts `[name] ` before the line, whatever the name.** The listed
/// line of a named entry is `[`, the name, `] `, then the line of the same
/// entry without a name, which is the destination, ` -> ` and the source.
pub proof fn lemma_listed_line_shape(e: EntryView, n: Seq<char>)
    ensures
        entry_line(EntryView { name: Some(n), ..e }) == seq!['['] + n + seq![']', ' '] + entry_line(
            EntryView { name: None, ..e },
        ),
        entry_line(EntryView { name: None, ..e }) == e.destination + seq![' ', '-', '>', ' '] + e.source,
{
    assert(entry_line(EntryView { name: Some(n), ..e }) =~= seq!['['] + n + seq![']', ' '] + entry_line(
        EntryView { name: None, ..e },
    ));
    assert(entry_line(EntryView { name: None, ..e }) =~= e.destination + seq![' ', '-', '>', ' ']
        + e.source);
}

/// **The path and `--name` may come in either order.** For a path `p` and a
/// name `v` that do not read as options, `dotman add p --name v` and `dotman
/// add --name v p` both add `p` under the name `v`.
pub proof fn lemma_add_arguments_in_any_order(program: Seq<char>, p: Seq<char>, v: Seq<char>)
    requires
        p.len() > 0,
        !flag_like(p),
        !flag_like(v),
    ensures
        command_line(seq![program, "add"@, p, "--name"@, v]) == Ok::<CommandView, UsageError>(
            CommandView::Add { path: p, name: Some(v) },
        ),
        command_line(seq![program, "add"@, "--name"@, v, p]) == Ok::<CommandView, UsageError>(
            CommandView::Add { path: p, name: Some(v) },
        ),
{
    reveal_strlit("add");
    reveal_strlit("--name");
    reveal_strlit("--name=");
    reveal_strlit("--");
    reveal_strlit("--help");
    reveal_strlit("--version");
    reveal_strlit("help");
    reveal_strlit("init");
    reveal_strlit("remove");
    reveal_strlit("list");
    reveal_strlit("restore");
    reveal_strlit("status");
    assert("add"@.len() == 3 && "help"@.len() == 4 && "init"@.len() == 4);
    assert("add"@ != "help"@);
    assert(!help_flag("add"@));
    assert(!version_flag("add"@));
    assert(!flag_like("add"@));
    assert("add"@ != "init"@);
    assert(subcommand_named("add"@) == Some(Subcommand::Add));
    assert(flag_like("--name"@));
    lemma_plain_word(p);
    lemma_plain_word(v);
    assert("--name"@ != "--"@);
    assert("--name"@[2] == 'n' && "--help"@[2] == 'h' && "--name"@[1] == '-');
    assert(!help_flag("--name"@));
    let one = seq![program, "add"@, p, "--name"@, v];
    let two = seq![program, "add"@, "--name"@, v, p];
    let r1 = one.skip(2);
    let r2 = two.skip(2);
    assert(r1 =~= seq![p, "--name"@, v]);
    assert(r2 =~= seq![("--name"@), v, p]);
    assert(r1.drop_last() =~= seq![p, "--name"@]);
    assert(r1.drop_last().drop_last() =~= seq![p]);
    assert(r1.drop_last().drop_last().drop_last() =~= Seq::<Seq<char>>::empty());
    assert(r2.drop_last() =~= seq![("--name"@), v]);
    assert(r2.drop_last().drop_last() =~= seq![("--name"@)]);
    assert(r2.drop_last().drop_last().drop_last() =~= Seq::<Seq<char>>::empty());
    assert(seq![p].drop_last() =~= Seq::<Seq<char>>::empty());
    assert(seq![("--name"@)].drop_last() =~= Seq::<Seq<char>>::empty());
    assert(seq![p, "--name"@].drop_last() =~= seq![p]);
    assert(seq![("--name"@), v].drop_last() =~= seq![("--name"@)]);
    assert(read_args(Subcommand::Add, Seq::<Seq<char>>::empty(), 2) == Ok::<ArgsRead, UsageError>(nothing_read()));
    let a = read_args(Subcommand::Add, seq![p], 2);
    assert(a == Ok::<ArgsRead, UsageError>(ArgsRead { path: Some(p), ..nothing_read() }));
    let b = read_args(Subcommand::Add, seq![p, "--name"@], 2);
    assert(b == Ok::<ArgsRead, UsageError>(
        ArgsRead { path: Some(p), name: None, literal: false, pending_name: true },
    ));
    assert(read_args(Subcommand::Add, r1, 2) == Ok::<ArgsRead, UsageError>(
        ArgsRead { path: Some(p), name: Some(v), literal: false, pending_name: false },
    ));
    let c = read_args(Subcommand::Add, seq![("--name"@)], 2);
    assert(c == Ok::<ArgsRead, UsageError>(ArgsRead { pending_name: true, ..nothing_read() }));
    let d = read_args(Subcommand::Add, seq![("--name"@), v], 2);
    assert(d == Ok::<ArgsRead, UsageError>(
        ArgsRead { path: None, name: Some(v), literal: false, pending_name: false },
    ));
    assert(read_args(Subcommand::Add, r2, 2) == Ok::<ArgsRead, UsageError>(
        ArgsRead { path: Some(p), name: Some(v), literal: false, pending_name: false },
    ));
}

/// A word that does not read as an option is none of the option words.
proof fn lemma_plain_word(w: Seq<char>)
    requires
        !flag_like(w),
    ensures
        w != "--"@,
        !help_flag(w),
        w != "--name"@,
        inline_name(w) is None,
{
    reveal_strlit("--");
    reveal_strlit("--help");
    reveal_strlit("--name");
    reveal_strlit("--name=");
    assert("--"@.len() == 2 && "--"@[0] == '-');
    assert("--help"@.len() == 6 && "--help"@[0] == '-');
    assert("--name"@.len() == 6 && "--name"@[0] == '-');
    if w.len() >= 7 && w.take(7) == "--name="@ {
        assert(w.take(7)[0] == '-');
        assert(w[0] == '-');
    }
}

} // verus!
