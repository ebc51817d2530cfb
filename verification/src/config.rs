//! Loop construction: the ordered list of declared branches (hooks and
//! sources), its partition into the four branch groups, and the source
//! adapter that normalizes a single-value producer into a one-item sequence
//! producer.

use vstd::prelude::*;

verus! {

/// The kind of a declared source: a single-value producer, or a producer of
/// a sequence of zero or more values.
#[derive(Clone, Copy, Debug, PartialEq, Eq)]
pub enum SourceKind {
    Value,
    Sequence,
}

/// The kind of a declared hook.
#[derive(Clone, Copy, Debug, PartialEq, Eq)]
pub enum HookKind {
    Before,
    After,
    Exhausted,
}

/// One declared branch of the loop, in declaration order: a hook of one of
/// the three kinds, or a source with its handler.
#[derive(Clone, Copy, Debug, PartialEq, Eq)]
pub enum BranchDecl {
    Hook(HookKind),
    Sourced(SourceKind),
}

/// The declaration list partitioned into its four groups. Each group holds
/// the indices of its branches in the original declaration list, in declared
/// order.
pub struct BranchGroups {
    pub before: Vec<usize>,
    pub after: Vec<usize>,
    pub exhausted: Vec<usize>,
    pub sourced: Vec<usize>,
}

/// The indices of the hooks of one kind in a declaration list, in order.
pub open spec fn hook_indices(decls: Seq<BranchDecl>, kind: HookKind) -> Seq<usize>
    decreases decls.len(),
{
    if decls.len() == 0 {
        Seq::empty()
    } else {
        let rest = hook_indices(decls.drop_last(), kind);
        if decls.last() == BranchDecl::Hook(kind) {
            rest.push((decls.len() - 1) as usize)
        } else {
            rest
        }
    }
}

/// The indices of the sourced branches of a declaration list, in order.
pub open spec fn source_indices(decls: Seq<BranchDecl>) -> Seq<usize>
    decreases decls.len(),
{
    if decls.len() == 0 {
        Seq::empty()
    } else {
        let rest = source_indices(decls.drop_last());
        if decls.last() is Sourced {
            rest.push((decls.len() - 1) as usize)
        } else {
            rest
        }
    }
}

/// Partition a declaration list into its hook groups and its sources,
/// preserving declared order within each group.
pub fn split_branches(decls: &Vec<BranchDecl>) -> (groups: BranchGroups)
    ensures
        groups.before@ == hook_indices(decls@, HookKind::Before),
        groups.after@ == hook_indices(decls@, HookKind::After),
        groups.exhausted@ == hook_indices(decls@, HookKind::Exhausted),
        groups.sourced@ == source_indices(decls@),
{
    let mut groups = BranchGroups {
        before: Vec::new(),
        after: Vec::new(),
        exhausted: Vec::new(),
        sourced: Vec::new(),
    };
    let mut i: usize = 0;
    while i < decls.len()
        invariant
            i <= decls.len(),
            groups.before@ == hook_indices(decls@.take(i as int), HookKind::Before),
            groups.after@ == hook_indices(decls@.take(i as int), HookKind::After),
            groups.exhausted@ == hook_indices(decls@.take(i as int), HookKind::Exhausted),
            groups.sourced@ == source_indices(decls@.take(i as int)),
        decreases decls.len() - i,
    {
        proof {
            assert(decls@.take(i + 1).drop_last() =~= decls@.take(i as int));
            assert(decls@.take(i + 1).last() == decls@[i as int]);
        }
        match decls[i] {
            BranchDecl::Hook(HookKind::Before) => groups.before.push(i),
            BranchDecl::Hook(HookKind::After) => groups.after.push(i),
            BranchDecl::Hook(HookKind::Exhausted) => groups.exhausted.push(i),
            BranchDecl::Sourced(_) => groups.sourced.push(i),
        }
        i = i + 1;
    }
    proof {
        assert(decls@.take(decls@.len() as int) =~= decls@);
    }
    groups
}

/// One declared source together with the items it will produce: a Value
/// source yields exactly one item and completes; a Sequence source yields
/// zero or more items and completes.
#[derive(Clone, Debug, PartialEq, Eq)]
pub enum SourceSpec<T> {
    Value(T),
    Sequence(Vec<T>),
}

impl<T> SourceSpec<T> {
    /// The items this source produces, in production order.
    pub open spec fn items(self) -> Seq<T> {
        match self {
            SourceSpec::Value(v) => seq![v],
            SourceSpec::Sequence(items) => items@,
        }
    }
}

/// The source adapter: normalize a source into a plain item sequence, so all
/// sources are treated uniformly as sequence producers. A Value source
/// becomes the one-item sequence holding its value; a Sequence source passes
/// through unchanged. Performed once at loop construction.
pub fn normalize_source<T>(source: SourceSpec<T>) -> (items: Vec<T>)
    ensures
        items@ == source.items(),
{
    match source {
        SourceSpec::Value(v) => {
            let mut items: Vec<T> = Vec::new();
            items.push(v);
            proof {
                assert(items@ =~= seq![v]);
            }
            items
        },
        SourceSpec::Sequence(items) => items,
    }
}

} // verus!
