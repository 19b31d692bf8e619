//! The entry model of a declared tree, and the storage calls it stands for.

use vstd::prelude::*;

verus! {

/// What a declared entry asks for.
pub enum Value {
    /// Declared but intentionally absent: nothing is created.
    Skip,
    /// A file of zero length.
    EmptyFile,
    /// A file holding these bytes.
    Content(Vec<u8>),
    /// A directory, then its own entries, in order.
    Dir(Vec<Entry>),
}

/// One declared `(key, value)` pair; the key is a path segment (it may hold
/// separators of its own).
pub struct Entry {
    pub key: String,
    pub value: Value,
}

/// A call on the storage backend.
#[derive(Debug, PartialEq, Eq)]
pub enum Op {
    /// Create the directory at this path, and any missing ancestors.
    CreateDir(String),
    /// Write (overwrite) the file at this path with these bytes.
    WriteFile(String, Vec<u8>),
}

/// The mathematical content of an [`Op`].
pub enum Effect {
    CreateDir(Seq<char>),
    WriteFile(Seq<char>, Seq<u8>),
}

impl View for Op {
    type V = Effect;

    open spec fn view(&self) -> Effect {
        match self {
            Op::CreateDir(p) => Effect::CreateDir(p@),
            Op::WriteFile(p, c) => Effect::WriteFile(p@, c@),
        }
    }
}

/// The effects of a sequence of calls.
pub open spec fn effects_of(ops: Seq<Op>) -> Seq<Effect> {
    ops.map_values(|o: Op| o@)
}

/// The path of the entry `key` under `parent`; an empty parent stands for
/// the current directory.
pub open spec fn join(parent: Seq<char>, key: Seq<char>) -> Seq<char> {
    if parent.len() == 0 {
        key
    } else {
        parent + seq!['/'] + key
    }
}

/// The calls that one entry under `parent` stands for, its subtree included.
pub open spec fn entry_effects(parent: Seq<char>, e: Entry) -> Seq<Effect>
    decreases e,
{
    let path = join(parent, e.key@);
    match e.value {
        Value::Skip => Seq::empty(),
        Value::EmptyFile => seq![Effect::WriteFile(path, Seq::empty())],
        Value::Content(c) => seq![Effect::WriteFile(path, c@)],
        Value::Dir(children) => seq![Effect::CreateDir(path)] + effects(path, children@),
    }
}

/// The calls that a sequence of entries under `parent` stands for: depth
/// first, pre-order, in declaration order.
pub open spec fn effects(parent: Seq<char>, entries: Seq<Entry>) -> Seq<Effect>
    decreases entries,
{
    if entries.len() == 0 {
        Seq::empty()
    } else {
        effects(parent, entries.drop_last()) + entry_effects(parent, entries.last())
    }
}

/// Joins `key` onto `parent`.
pub fn join_path(parent: &str, key: &str) -> (r: String)
    ensures
        r@ == join(parent@, key@),
{
    if parent.is_empty() {
        key.to_owned()
    } else {
        let mut r = parent.to_owned();
        r.append("/");
        r.append(key);
        proof {
            reveal_strlit("/");
        }
        r
    }
}

/// The calls of two consecutive runs of entries are those of the first, then
/// those of the second.
pub proof fn lemma_effects_append(parent: Seq<char>, a: Seq<Entry>, b: Seq<Entry>)
    ensures
        effects(parent, a + b) == effects(parent, a) + effects(parent, b),
    decreases b.len(),
{
    if b.len() == 0 {
        assert(a + b =~= a);
    } else {
        lemma_effects_append(parent, a, b.drop_last());
        assert((a + b).drop_last() =~= a + b.drop_last());
        assert((a + b).last() == b.last());
    }
}

/// Appends to `out` the calls that `entries` under `parent` stand for.
fn push_effects(parent: &String, entries: &Vec<Entry>, out: &mut Vec<Op>)
    ensures
        effects_of(final(out)@) == effects_of(old(out)@) + effects(parent@, entries@),
    decreases entries,
{
    let mut i: usize = 0;
    while i < entries.len()
        invariant
            i <= entries.len(),
            effects_of(out@) == effects_of(old(out)@) + effects(parent@, entries@.subrange(0, i as int)),
        decreases entries.len() - i,
    {
        let ghost before = out@;
        let e = &entries[i];
        let path = join_path(parent.as_str(), e.key.as_str());
        match &e.value {
            Value::Skip => {},
            Value::EmptyFile => {
                out.push(Op::WriteFile(path, Vec::new()));
            },
            Value::Content(c) => {
                out.push(Op::WriteFile(path, c.clone()));
            },
            Value::Dir(children) => {
                out.push(Op::CreateDir(path.clone()));
                assert(decreases_to!(entries => entries@[i as int]));
                push_effects(&path, children, out);
            },
        }
        proof {
            let s = entries@.subrange(0, i + 1);
            assert(s.drop_last() =~= entries@.subrange(0, i as int));
            assert(effects_of(out@) =~= effects_of(before) + entry_effects(parent@, entries@[i as int]));
        }
        i = i + 1;
    }
    assert(entries@.subrange(0, entries.len() as int) =~= entries@);
}

/// The calls that `entries` under `root` stand for, in the order in which
/// they are to be made.
pub fn plan(root: &str, entries: &Vec<Entry>) -> (r: Vec<Op>)
    ensures
        effects_of(r@) == effects(root@, entries@),
{
    let mut out: Vec<Op> = Vec::new();
    let parent = root.to_owned();
    push_effects(&parent, entries, &mut out);
    assert(effects_of(Seq::<Op>::empty()) =~= Seq::<Effect>::empty());
    assert(Seq::<Effect>::empty() + effects(root@, entries@) =~= effects(root@, entries@));
    out
}

} // verus!
