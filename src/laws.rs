//! What holds of every walk: order, fail-fast, inert skips, empty-file
//! markers and idempotent re-runs.

use vstd::prelude::*;
use crate::tree::{Effect, Entry, effects, entry_effects, join, lemma_effects_append};
use crate::memory::{Failure, admits, node_at, node_of, path_of, run};

verus! {

/// A run in which every call succeeds leaves exactly those calls behind it,
/// in order.
pub proof fn lemma_run_success(log: Seq<Effect>, failing: Seq<Seq<char>>, calls: Seq<Effect>)
    requires
        run(log, failing, calls).1 is None,
    ensures
        run(log, failing, calls).0 == log + calls,
    decreases calls.len(),
{
    if calls.len() == 0 {
        assert(log + calls =~= log);
    } else {
        lemma_run_success(log.push(calls[0]), failing, calls.drop_first());
        assert(log.push(calls[0]) + calls.drop_first() =~= log + calls);
    }
}

/// Running two batches of calls back to back is running the first and, only
/// where all of it succeeded, then the second.
pub proof fn lemma_run_append(log: Seq<Effect>, failing: Seq<Seq<char>>, a: Seq<Effect>, b: Seq<Effect>)
    ensures
        run(log, failing, a + b) == (if run(log, failing, a).1 is None {
            run(run(log, failing, a).0, failing, b)
        } else {
            run(log, failing, a)
        }),
    decreases a.len(),
{
    if a.len() == 0 {
        assert(a + b =~= b);
    } else {
        assert((a + b)[0] == a[0]);
        assert((a + b).drop_first() =~= a.drop_first() + b);
        lemma_run_append(log.push(a[0]), failing, a.drop_first(), b);
    }
}

proof fn lemma_three(parent: Seq<char>, a: Entry, b: Entry, c: Entry)
    ensures
        effects(parent, seq![a, b, c]) == entry_effects(parent, a) + entry_effects(parent, b)
            + entry_effects(parent, c),
{
    let s = seq![a, b, c];
    assert(s.drop_last() =~= seq![a, b]);
    assert(seq![a, b].drop_last() =~= seq![a]);
    assert(seq![a].drop_last() =~= Seq::<Entry>::empty());
    assert(effects(parent, Seq::<Entry>::empty()) == Seq::<Effect>::empty());
    assert(effects(parent, seq![a]) == Seq::<Effect>::empty() + entry_effects(parent, a));
    assert(effects(parent, seq![a]) =~= entry_effects(parent, a));
    assert(effects(parent, seq![a, b]) == effects(parent, seq![a]) + entry_effects(parent, b));
    assert(effects(parent, s) == effects(parent, seq![a, b]) + entry_effects(parent, c));
}

/// Siblings are handled in declaration order, each one completely before
/// the next; a directory is created before anything inside it; and where
/// every call succeeds the backend sees exactly these calls, in this order.
pub proof fn law_order(
    parent: Seq<char>,
    a: Entry,
    b: Entry,
    c: Entry,
    log: Seq<Effect>,
    failing: Seq<Seq<char>>,
)
    ensures
        effects(parent, seq![a, b, c]) == entry_effects(parent, a) + entry_effects(parent, b)
            + entry_effects(parent, c),
        a.value is Dir ==> entry_effects(parent, a) == seq![Effect::CreateDir(join(parent, a.key@))]
            + effects(join(parent, a.key@), a.value->Dir_0@),
        run(log, failing, effects(parent, seq![a, b, c])).1 is None ==> run(
            log,
            failing,
            effects(parent, seq![a, b, c]),
        ).0 == log + effects(parent, seq![a, b, c]),
{
    lemma_three(parent, a, b, c);
    if run(log, failing, effects(parent, seq![a, b, c])).1 is None {
        lemma_run_success(log, failing, effects(parent, seq![a, b, c]));
    }
}

/// The first failure ends the walk and nothing is undone: with siblings
/// `a`, `b`, `c`, where every call of `a` succeeds and a call of `b` fails,
/// the outcome is that of `a`'s calls followed by `b`'s up to its failure,
/// which is the failure returned; nothing of `c` is attempted.
pub proof fn law_fail_fast(
    parent: Seq<char>,
    a: Entry,
    b: Entry,
    c: Entry,
    log: Seq<Effect>,
    failing: Seq<Seq<char>>,
)
    requires
        run(log, failing, entry_effects(parent, a)).1 is None,
        run(log + entry_effects(parent, a), failing, entry_effects(parent, b)).1 is Some,
    ensures
        run(log, failing, effects(parent, seq![a, b, c])) == run(
            log + entry_effects(parent, a),
            failing,
            entry_effects(parent, b),
        ),
{
    let ea = entry_effects(parent, a);
    let eb = entry_effects(parent, b);
    let ec = entry_effects(parent, c);
    lemma_three(parent, a, b, c);
    lemma_run_success(log, failing, ea);
    lemma_run_append(log, failing, ea + eb, ec);
    lemma_run_append(log, failing, ea, eb);
}

/// An entry that is skipped makes no call, wherever it stands.
pub proof fn law_skip(parent: Seq<char>, skipped: Entry, before: Seq<Entry>, after: Seq<Entry>)
    requires
        skipped.value is Skip,
    ensures
        entry_effects(parent, skipped) == Seq::<Effect>::empty(),
        effects(parent, before + seq![skipped] + after) == effects(parent, before + after),
{
    let one = seq![skipped];
    assert(one.drop_last() =~= Seq::<Entry>::empty());
    assert(one.last() == skipped);
    assert(effects(parent, Seq::<Entry>::empty()) == Seq::<Effect>::empty());
    assert(effects(parent, one) == Seq::<Effect>::empty() + entry_effects(parent, skipped));
    assert(effects(parent, one) =~= Seq::<Effect>::empty());
    lemma_effects_append(parent, before, one);
    lemma_effects_append(parent, before + one, after);
    lemma_effects_append(parent, before, after);
    assert(effects(parent, before) + Seq::<Effect>::empty() =~= effects(parent, before));
}

/// An entry marked as an empty file makes exactly one call: a write of no
/// bytes at its path.
pub proof fn law_empty_file(parent: Seq<char>, e: Entry)
    requires
        e.value is EmptyFile,
    ensures
        entry_effects(parent, e) == seq![Effect::WriteFile(join(parent, e.key@), Seq::<u8>::empty())],
{
}

/// What a path holds after two batches of calls is what the second left
/// there, or else what the first did.
pub proof fn lemma_node_at_append(a: Seq<Effect>, b: Seq<Effect>, path: Seq<char>)
    ensures
        node_at(a + b, path) == (if node_at(b, path) is Some {
            node_at(b, path)
        } else {
            node_at(a, path)
        }),
    decreases b.len(),
{
    if b.len() == 0 {
        assert(a + b =~= a);
    } else {
        assert((a + b).last() == b.last());
        assert((a + b).drop_last() =~= a + b.drop_last());
        lemma_node_at_append(a, b.drop_last(), path);
    }
}

/// A path that some call touches holds what one of those calls left.
proof fn lemma_node_at_touched(b: Seq<Effect>, path: Seq<char>, k: int)
    requires
        0 <= k < b.len(),
        path_of(b[k]) == path,
    ensures
        exists|j: int|
            0 <= j < b.len() && path_of(#[trigger] b[j]) == path && node_at(b, path) == Some(
                node_of(b[j]),
            ),
    decreases b.len(),
{
    if path_of(b.last()) == path {
        assert(path_of(b[b.len() - 1]) == path);
    } else {
        assert(k != b.len() - 1);
        assert(b.drop_last()[k] == b[k]);
        lemma_node_at_touched(b.drop_last(), path, k);
        let j = choose|j: int|
            0 <= j < b.drop_last().len() && path_of(#[trigger] b.drop_last()[j]) == path
                && node_at(b.drop_last(), path) == Some(node_of(b.drop_last()[j]));
        assert(b[j] == b.drop_last()[j]);
    }
}

/// All calls on one path are of one kind: all directory creations, or all
/// writes.
pub open spec fn consistent(calls: Seq<Effect>) -> bool {
    forall|i: int, j: int|
        0 <= i < calls.len() && 0 <= j < calls.len() && path_of(calls[i]) == path_of(calls[j])
            ==> admits(Some(node_of(#[trigger] calls[i])), #[trigger] calls[j])
}

/// Every call, made first on its path after the calls of `log`, would go
/// through.
pub open spec fn fits(log: Seq<Effect>, failing: Seq<Seq<char>>, calls: Seq<Effect>) -> bool {
    forall|i: int|
        0 <= i < calls.len() ==> !failing.contains(path_of(#[trigger] calls[i])) && admits(
            node_at(log, path_of(calls[i])),
            calls[i],
        )
}

/// Calls that are consistent and fit the state all succeed.
pub proof fn lemma_fits_succeeds(log: Seq<Effect>, failing: Seq<Seq<char>>, calls: Seq<Effect>)
    requires
        fits(log, failing, calls),
        consistent(calls),
    ensures
        run(log, failing, calls) == (log + calls, None::<Failure>),
    decreases calls.len(),
{
    if calls.len() == 0 {
        assert(log + calls =~= log);
    } else {
        let c0 = calls[0];
        let rest = calls.drop_first();
        let next = log.push(c0);
        assert(next.drop_last() =~= log);
        assert(next.last() == c0);
        assert forall|j: int| 0 <= j < rest.len() implies !failing.contains(
            path_of(#[trigger] rest[j]),
        ) && admits(node_at(next, path_of(rest[j])), rest[j]) by {
            assert(rest[j] == calls[j + 1]);
        }
        assert forall|i: int, j: int|
            0 <= i < rest.len() && 0 <= j < rest.len() && path_of(rest[i]) == path_of(
                rest[j],
            ) implies admits(Some(node_of(#[trigger] rest[i])), #[trigger] rest[j]) by {
            assert(rest[i] == calls[i + 1]);
            assert(rest[j] == calls[j + 1]);
        }
        lemma_fits_succeeds(next, failing, rest);
        assert(next + rest =~= log + calls);
    }
}

/// Calls that all succeed are consistent and fit the state they start from.
pub proof fn lemma_success_fits(log: Seq<Effect>, failing: Seq<Seq<char>>, calls: Seq<Effect>)
    requires
        run(log, failing, calls).1 is None,
    ensures
        fits(log, failing, calls),
        consistent(calls),
    decreases calls.len(),
{
    if calls.len() > 0 {
        let c0 = calls[0];
        let rest = calls.drop_first();
        let next = log.push(c0);
        assert(next.drop_last() =~= log);
        assert(next.last() == c0);
        lemma_success_fits(next, failing, rest);
        assert forall|j: int| 1 <= j < calls.len() implies calls[j] == rest[j - 1] by {}
        assert forall|i: int, j: int|
            0 <= i < calls.len() && 0 <= j < calls.len() && path_of(calls[i]) == path_of(
                calls[j],
            ) implies admits(Some(node_of(#[trigger] calls[i])), #[trigger] calls[j]) by {
            if i > 0 && j > 0 {
                assert(calls[i] == rest[i - 1]);
                assert(calls[j] == rest[j - 1]);
            } else if i == 0 && j > 0 {
                assert(calls[j] == rest[j - 1]);
            } else if i > 0 && j == 0 {
                assert(calls[i] == rest[i - 1]);
            }
        }
        assert forall|i: int| 0 <= i < calls.len() implies !failing.contains(
            path_of(#[trigger] calls[i]),
        ) && admits(node_at(log, path_of(calls[i])), calls[i]) by {
            if i > 0 {
                assert(calls[i] == rest[i - 1]);
                assert(admits(Some(node_of(calls[0])), calls[i]) || path_of(calls[0]) != path_of(
                    calls[i],
                ));
            }
        }
    }
}

/// Running the same tree a second time, on a backend whose directory
/// creation is idempotent and whose writes overwrite, succeeds wherever the
/// first run did, and leaves every path holding what it held after the
/// first run.
pub proof fn law_rerun(log: Seq<Effect>, failing: Seq<Seq<char>>, root: Seq<char>, tree: Seq<Entry>)
    requires
        run(log, failing, effects(root, tree)).1 is None,
    ensures
        run(run(log, failing, effects(root, tree)).0, failing, effects(root, tree)).1 is None,
        forall|path: Seq<char>|
            node_at(run(run(log, failing, effects(root, tree)).0, failing, effects(root, tree)).0, path)
                == node_at(run(log, failing, effects(root, tree)).0, path),
{
    let calls = effects(root, tree);
    lemma_success_fits(log, failing, calls);
    lemma_fits_succeeds(log, failing, calls);
    let first = log + calls;
    assert forall|i: int| 0 <= i < calls.len() implies !failing.contains(
        path_of(#[trigger] calls[i]),
    ) && admits(node_at(first, path_of(calls[i])), calls[i]) by {
        let path = path_of(calls[i]);
        lemma_node_at_touched(calls, path, i);
        lemma_node_at_append(log, calls, path);
    }
    lemma_fits_succeeds(first, failing, calls);
    assert forall|path: Seq<char>| node_at(first + calls, path) == node_at(first, path) by {
        lemma_node_at_append(first, calls, path);
        lemma_node_at_append(log, calls, path);
    }
}

} // verus!
