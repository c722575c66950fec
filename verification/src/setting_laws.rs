//! What holds of the command around a check: its settings, its hook, and the order of paths.

use vstd::prelude::*;

use crate::command;
use crate::command::Command;
use crate::display_laws;
use crate::explain;
use crate::hook;
use crate::listing;
use crate::options;
use crate::options::{ArgsView, ConfigView, FailOn, Format};
use crate::path_order;
use crate::svd_model::ModelView;
use crate::text;
use crate::text_laws;

verus! {

// ── Settings ─────────────────────────────────────────────────────────────────

/// Where the command line is silent the configuration counts, and where that is silent too
/// the default: a text report, failing on errors, to the terminal, without notes and
/// headers.
pub proof fn configuration_then_defaults(args: ArgsView, config: ConfigView)
    ensures
        ({
            let s = options::settings(args, config);
            &&& args.format matches Some(f) ==> s.format == f
            &&& args.format is None && (config.format matches Some(f)) ==> s.format == config.format->0
            &&& args.format is None && config.format is None ==> s.format == Format::Text
            &&& args.fail_on matches Some(f) ==> s.fail_on == f
            &&& args.fail_on is None && config.fail_on is Some ==> s.fail_on == config.fail_on->0
            &&& args.fail_on is None && config.fail_on is None ==> s.fail_on == FailOn::Error
            &&& args.output is Some ==> s.output == args.output
            &&& args.output is None ==> s.output == config.output
            &&& s.notes <==> args.notes || config.notes == Some(true)
            &&& s.scan_headers <==> args.scan_headers || config.scan_headers == Some(true)
            &&& args.paths.len() > 0 ==> s.paths == args.paths
            &&& args.paths.len() == 0 && (config.paths matches Some(p) && p.len() > 0) ==> s.paths == config.paths->0
            &&& args.paths.len() == 0 && !(config.paths matches Some(p) && p.len() > 0) && args.check ==> s.paths
                == seq!["."@]
            &&& args.paths.len() == 0 && !(config.paths matches Some(p) && p.len() > 0) && !args.check ==> s.paths.len()
                == 0
            &&& args.svd is None ==> options::first_given(args.svd, config.svd) == config.svd
            &&& args.svd is Some ==> options::first_given(args.svd, config.svd) == args.svd
        }),
{
}

/// Each command is answered by what it asks for: an explanation by itself, a listing from
/// the SVD, of the peripheral and the register of that name in upper case. A check and the
/// installation of the hook are not answered so.
pub proof fn commands_are_answered(command: Command, model: ModelView, color: bool)
    ensures
        match command {
            Command::Check | Command::InstallHook => command::direct_answer(command, color) is None
                && command::svd_answer(command, model, color) is None,
            Command::Explain { rule_id } => command::svd_answer(command, model, color) is None && match explain::explanation(
                rule_id@,
            ) {
                Some(e) => command::direct_answer(command, color) == Some(
                    Ok::<Seq<char>, Seq<char>>(explain::explanation_text(e, color)),
                ),
                None => command::direct_answer(command, color) == Some(
                    Err::<Seq<char>, Seq<char>>(explain::unknown_rule_text(rule_id@)),
                ),
            },
            Command::ListPeripherals => command::direct_answer(command, color) is None && command::svd_answer(
                command,
                model,
                color,
            ) == Some(Ok::<Seq<char>, Seq<char>>(listing::peripherals_listing(model, color))),
            Command::ListRegisters { peripheral } => command::direct_answer(command, color) is None && match (
            model.peripheral(text::upper_case(peripheral@))) {
                Some(p) => command::svd_answer(command, model, color) == Some(
                    Ok::<Seq<char>, Seq<char>>(listing::registers_listing(p, color)),
                ),
                None => command::svd_answer(command, model, color) == Some(
                    Err::<Seq<char>, Seq<char>>(listing::unknown_peripheral(model, text::upper_case(peripheral@))),
                ),
            },
            Command::ListFields { peripheral, register } => command::direct_answer(command, color) is None && match (
            model.peripheral(text::upper_case(peripheral@)), model.register(
                text::upper_case(peripheral@),
                text::upper_case(register@),
            )) {
                (Some(p), Some(r)) => command::svd_answer(command, model, color) == Some(
                    Ok::<Seq<char>, Seq<char>>(listing::fields_listing(p, r, color)),
                ),
                _ => command::svd_answer(command, model, color) matches Some(Err(_)),
            },
        },
{
}

// ── The hook ─────────────────────────────────────────────────────────────────

/// A hook is taken to run the check exactly if the tool's name stands somewhere in it.
pub proof fn hooks_that_name_the_tool(existing: Seq<char>)
    ensures
        hook::runs_check(existing) <==> display_laws::shown("silicon"@, existing),
{
    let n = "silicon"@;
    text_laws::the_first_occurrence_is_found(existing, n);
    if let Some(i) = text::find(existing, n) {
        assert(existing.subrange(i as int, i as int + n.len()) == n);
    }
    if display_laws::shown(n, existing) {
        let i = choose|i: int|
            0 <= i && i + n.len() <= existing.len() && #[trigger] existing.subrange(i, i + n.len()) == n;
        if text::find(existing, n) is None {
            assert(existing.subrange(i, i + n.len()) != n);
        }
    }
}

/// The hook is a shell script that runs the check, and ends with an error where it fails.
pub proof fn hooks_run_the_check()
    ensures
        "#!/bin/sh\n"@.is_prefix_of(hook::hook_script()),
        display_laws::shown("if ! silicon check"@, hook::hook_script()),
        display_laws::shown("exit 1\n"@, hook::hook_script()),
{
    broadcast use {
        display_laws::lemma_shown_left,
        display_laws::lemma_shown_right,
        display_laws::lemma_shown_self,
    };

    let script = hook::hook_script();
    reveal_strlit("#!/bin/sh\n");
    reveal_strlit("#!/bin/sh\n# ");
    assert(script.subrange(0, "#!/bin/sh\n"@.len() as int) =~= "#!/bin/sh\n"@);
    reveal_strlit("if ! silicon check");
    reveal_strlit("if ! silicon check 2>/dev/null; then\n");
    let line = "if ! silicon check 2>/dev/null; then\n"@;
    let part = "if ! silicon check"@;
    assert(part.len() == 18 && line.len() == 37);
    assert(line.subrange(0, (0 + part.len()) as int) =~= part);
    assert(display_laws::shown(part, line));
    reveal_strlit("exit 1\n");
    reveal_strlit("    exit 1\n");
    let last = "    exit 1\n"@;
    let code = "exit 1\n"@;
    assert(code.len() == 7 && last.len() == 11);
    assert(last.subrange(4, (4 + code.len()) as int) =~= code);
    assert(display_laws::shown(code, last));
    assert(display_laws::shown(line, script));
    assert(display_laws::shown(last, script));
    display_laws::lemma_shown_through(part, line, script);
    display_laws::lemma_shown_through(code, last, script);
}

/// A hook that is there already is kept, but for white space at its end, and the check
/// follows on a line of its own.
pub proof fn hooks_are_appended(existing: Seq<char>)
    ensures
        hook::appended_hook(existing) == text::trim_end(existing) + "\n"@ + hook::hook_script(),
        exists|space: Seq<char>| existing == #[trigger] (text::trim_end(existing) + space) && text_laws::all_space(space),
{
    text_laws::trimming_takes_white_space(existing);
}

// ── The order of texts and paths ─────────────────────────────────────────────

/// A text comes before another one exactly if it is a part of it from its start on, or has
/// the lower byte where they first differ.
pub proof fn texts_are_ordered_as_in_a_dictionary(a: Seq<char>, b: Seq<char>)
    ensures
        ({
            let x = vstd::utf8::encode_utf8(a);
            let y = vstd::utf8::encode_utf8(b);
            path_order::text_before(a, b) <==> exists|k: int| #[trigger] first_difference(x, y, k)
        }),
{
    lemma_bytes(vstd::utf8::encode_utf8(a), vstd::utf8::encode_utf8(b));
}

/// Whether `x` and `y` are the same before `k`, where `x` ends or has the lower byte.
pub open spec fn first_difference(x: Seq<u8>, y: Seq<u8>, k: int) -> bool {
    &&& 0 <= k <= x.len() && k < y.len()
    &&& x.take(k) == y.take(k)
    &&& k == x.len() || x[k] < y[k]
}

proof fn lemma_bytes(x: Seq<u8>, y: Seq<u8>)
    ensures
        path_order::bytes_before(x, y) <==> exists|k: int| #[trigger] first_difference(x, y, k),
    decreases x.len(),
{
    if y.len() > 0 {
        if x.len() == 0 || x[0] < y[0] {
            assert(x.take(0) =~= y.take(0));
            assert(first_difference(x, y, 0));
        } else if x[0] > y[0] {
            assert forall|k: int| !#[trigger] first_difference(x, y, k) by {
                if first_difference(x, y, k) && k > 0 {
                    assert(x.take(k)[0] == y.take(k)[0]);
                }
            }
        } else {
            let p = x.drop_first();
            let q = y.drop_first();
            lemma_bytes(p, q);
            if path_order::bytes_before(p, q) {
                let k = choose|k: int| #[trigger] first_difference(p, q, k);
                assert forall|i: int| 0 <= i < k + 1 implies x[i] == y[i] by {
                    if i > 0 {
                        assert(p.take(k)[i - 1] == q.take(k)[i - 1]);
                    }
                }
                assert(x.take(k + 1) =~= y.take(k + 1));
                assert(first_difference(x, y, k + 1));
            }
            if exists|k: int| #[trigger] first_difference(x, y, k) {
                let k = choose|k: int| #[trigger] first_difference(x, y, k);
                assert(k > 0);
                assert forall|i: int| 0 <= i < k - 1 implies p[i] == q[i] by {
                    assert(x.take(k)[i + 1] == y.take(k)[i + 1]);
                }
                assert(p.take(k - 1) =~= q.take(k - 1));
                assert(first_difference(p, q, k - 1));
            }
        }
    }
}

/// Whether a text is the name of a file or directory: not empty, without a slash, and
/// neither the current directory nor the one above.
pub open spec fn is_name(s: Seq<char>) -> bool {
    s.len() > 0 && s != "."@ && s != ".."@ && forall|i: int| 0 <= i < s.len() ==> #[trigger] s[i] != '/'
}

proof fn lemma_segment(s: Seq<char>, from: int, to: int)
    requires
        0 <= from <= to <= s.len(),
        forall|i: int| from <= i < to ==> s[i] != '/',
        to == s.len() || s[to] == '/',
    ensures
        path_order::segment_end(s, from) == to,
    decreases to - from,
{
    if from < to {
        lemma_segment(s, from + 1, to);
    }
}

proof fn lemma_segment_bounds(s: Seq<char>, from: int)
    requires
        0 <= from <= s.len(),
    ensures
        from <= path_order::segment_end(s, from) <= s.len(),
        forall|i: int| from <= i < path_order::segment_end(s, from) ==> s[i] != '/',
        path_order::segment_end(s, from) < s.len() ==> s[path_order::segment_end(s, from)] == '/',
    decreases s.len() - from,
{
    if from < s.len() && s[from] != '/' {
        lemma_segment_bounds(s, from + 1);
    }
}

/// The components of a file in a directory are those of the directory, and then its name.
pub proof fn files_follow_their_directory(dir: Seq<char>, name: Seq<char>)
    requires
        is_name(name),
        dir.len() > 0,
    ensures
        path_order::components(dir + "/"@ + name) == path_order::components(dir).push(name),
        path_order::components(name) == seq![name],
{
    reveal_strlit("/");
    let path = dir + "/"@ + name;
    lemma_names(dir, name, 0);
    lemma_alone(name);
    lemma_segment_bounds(dir, 0);
    let e = path_order::segment_end(dir, 0);
    assert forall|i: int| 0 <= i < e implies path[i] != '/' by {
        assert(path[i] == dir[i]);
    }
    if e < dir.len() {
        assert(path[e] == dir[e]);
    } else {
        assert(path[e] == '/');
    }
    lemma_segment(path, 0, e);
    assert(path.subrange(0, e) =~= dir.subrange(0, e));
    assert(path[0] == dir[0]);
    assert(path_order::path_start(path) == path_order::path_start(dir));
    assert(path_order::components(path) =~= path_order::components(dir).push(name));
}

proof fn lemma_alone(name: Seq<char>)
    requires
        is_name(name),
    ensures
        path_order::components(name) == seq![name],
{
    lemma_segment(name, 0, name.len() as int);
    assert(name.subrange(0, name.len() as int) =~= name);
    assert(path_order::path_start(name).len() == 0);
    assert(path_order::names_from(name, 0) =~= seq![name]);
    assert(path_order::components(name) =~= seq![name]);
}

proof fn lemma_names(dir: Seq<char>, name: Seq<char>, from: int)
    requires
        is_name(name),
        0 <= from <= dir.len(),
    ensures
        path_order::names_from(dir + "/"@ + name, from) == path_order::names_from(dir, from).push(name),
    decreases dir.len() - from,
{
    reveal_strlit("/");
    let path = dir + "/"@ + name;
    let n = dir.len() as int;
    assert(path[n] == '/');
    if from == n {
        // The slash ends an empty name, and the last name follows.
        lemma_segment(path, n, n);
        assert(path.subrange(n, n).len() == 0);
        assert forall|i: int| n + 1 <= i < path.len() implies path[i] != '/' by {
            assert(path[i] == name[i - n - 1]);
        }
        lemma_segment(path, n + 1, path.len() as int);
        assert(path.subrange(n + 1, path.len() as int) =~= name);
        assert(path_order::names_from(path, n + 1) =~= seq![name]);
        assert(path_order::names_from(path, n) =~= seq![name]);
        assert(path_order::names_from(dir, n).len() == 0);
        assert(path_order::names_from(path, from) =~= path_order::names_from(dir, from).push(name));
    } else {
        lemma_segment_bounds(dir, from);
        let e = path_order::segment_end(dir, from);
        assert forall|i: int| from <= i < e implies path[i] != '/' by {
            assert(path[i] == dir[i]);
        }
        if e < n {
            assert(path[e] == dir[e]);
        }
        lemma_segment(path, from, e);
        assert(path.subrange(from, e) =~= dir.subrange(from, e));
        if e < n {
            lemma_names(dir, name, e + 1);
        } else {
            assert forall|i: int| n + 1 <= i < path.len() implies path[i] != '/' by {
                assert(path[i] == name[i - n - 1]);
            }
            lemma_segment(path, n + 1, path.len() as int);
            assert(path.subrange(n + 1, path.len() as int) =~= name);
            assert(path_order::names_from(path, n + 1) =~= seq![name]);
        }
        assert(path_order::names_from(path, from) =~= path_order::names_from(dir, from).push(name));
    }
}

/// Files of one directory are ordered by their names, and a directory comes before what is
/// in it.
pub proof fn files_are_ordered_by_name(dir: Seq<char>, a: Seq<char>, b: Seq<char>)
    requires
        is_name(a),
        is_name(b),
        dir.len() > 0,
    ensures
        path_order::path_before(a, b) <==> path_order::text_before(a, b),
        path_order::path_before(dir + "/"@ + a, dir + "/"@ + b) <==> path_order::text_before(a, b),
        path_order::path_before(dir, dir + "/"@ + a),
{
    files_follow_their_directory(dir, a);
    files_follow_their_directory(dir, b);
    let d = path_order::components(dir);
    lemma_common_start(d, seq![a], seq![b]);
    lemma_common_start(d, Seq::empty(), seq![a]);
    assert(d + Seq::<Seq<char>>::empty() =~= d);
    assert(d + seq![a] =~= d.push(a));
    assert(d + seq![b] =~= d.push(b));
    reveal_strlit("/");
    reveal_strlit(".");
    reveal_strlit("..");
    assert(a != "/"@) by {
        if a == "/"@ {
            assert(a[0] == '/');
        }
    }
    assert(b != "/"@) by {
        if b == "/"@ {
            assert(b[0] == '/');
        }
    }
    assert(path_order::component_before(a, b) == path_order::text_before(a, b));
    assert(path_order::component_before(b, a) == path_order::text_before(b, a));
    path_order::lemma_text_asymmetric(a, b);
    assert(seq![a].drop_first() =~= Seq::<Seq<char>>::empty());
    assert(seq![b].drop_first() =~= Seq::<Seq<char>>::empty());
    reveal_with_fuel(path_order::components_before, 2);
    assert(path_order::components_before(seq![a], seq![b]) == path_order::text_before(a, b));
    assert(path_order::components_before(Seq::<Seq<char>>::empty(), seq![a]));
}

/// A path from the root comes before one that goes up, and that before one that goes down.
pub proof fn roots_and_parents_come_first(a: Seq<char>, b: Seq<char>)
    requires
        is_name(a),
        is_name(b),
    ensures
        path_order::path_before("/"@ + a, ".."@ + "/"@ + b),
        path_order::path_before("/"@ + a, b),
        path_order::path_before(".."@ + "/"@ + a, b),
{
    reveal_strlit("/");
    reveal_strlit(".");
    reveal_strlit("..");
    assert("/"@.len() == 1 && "."@.len() == 1 && ".."@.len() == 2 && "/"@[0] == '/' && "."@[0] == '.');
    files_follow_their_directory(".."@, a);
    files_follow_their_directory(".."@, b);
    files_follow_their_directory(b, a);
    files_follow_their_directory(a, b);
    // The directory above is one component.
    lemma_segment(".."@, 0, 2);
    assert(".."@.subrange(0, 2) =~= ".."@);
    assert(path_order::names_from(".."@, 0) =~= seq![".."@]);
    assert(path_order::components(".."@) =~= seq![".."@]);
    // So is the root.
    let root = "/"@ + a;
    lemma_segment(root, 0, 0);
    assert(root.subrange(0, 0).len() == 0);
    assert forall|i: int| 1 <= i < root.len() implies root[i] != '/' by {
        assert(root[i] == a[i - 1]);
    }
    lemma_segment(root, 1, root.len() as int);
    assert(root.subrange(1, root.len() as int) =~= a);
    assert(path_order::names_from(root, 1) =~= seq![a]);
    assert(path_order::names_from(root, 0) =~= seq![a]);
    assert(path_order::components(root) =~= seq!["/"@, a]);
    assert(b != "/"@) by {
        if b == "/"@ {
            assert(b[0] == '/');
        }
    }
    assert(path_order::component_rank("/"@) == 0);
    assert(path_order::component_rank(".."@) == 2);
    assert(path_order::component_rank(b) == 3);
}

proof fn lemma_common_start(d: Seq<Seq<char>>, x: Seq<Seq<char>>, y: Seq<Seq<char>>)
    ensures
        path_order::components_before(d + x, d + y) == path_order::components_before(x, y),
    decreases d.len(),
{
    if d.len() == 0 {
        assert(d + x =~= x);
        assert(d + y =~= y);
    } else {
        lemma_common_start(d.drop_first(), x, y);
        assert((d + x).drop_first() =~= d.drop_first() + x);
        assert((d + y).drop_first() =~= d.drop_first() + y);
        path_order::lemma_text_asymmetric(d[0], d[0]);
        assert((d + x)[0] == d[0] && (d + y)[0] == d[0]);
    }
}

} // verus!
