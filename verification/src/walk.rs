//! Depth-first, pre-order walks over a subtree whose children are fetched
//! one node at a time: the walk says which node to visit next, and is told
//! the children of each visited node.
use vstd::prelude::*;
use crate::client::{child_path, spec_child_path};

verus! {

/// The children `names` of `parent` as walk entries at depth `d`.
pub open spec fn entries(parent: Seq<char>, names: Seq<Seq<char>>, d: nat) -> Seq<(Seq<char>, nat)> {
    Seq::new(names.len(), |i: int| (spec_child_path(parent, names[i]), d))
}

/// The nodes that a walk visits in at most `fuel` steps from `pending`, when
/// each step takes the next node (`Walk::next`) and then pushes the children
/// that `kids` gives for it (`Walk::push_children`).
pub open spec fn drive(
    kids: spec_fn(Seq<char>) -> Seq<Seq<char>>,
    pending: Seq<(Seq<char>, nat)>,
    fuel: nat,
) -> Seq<(Seq<char>, nat)>
    decreases fuel,
{
    if fuel == 0 || pending.len() == 0 {
        Seq::empty()
    } else {
        let (p, d) = pending[0];
        seq![(p, d)] + drive(kids, entries(p, kids(p), d + 1) + pending.drop_first(), (fuel - 1) as nat)
    }
}

/// The subtree under `p` has no node more than `h` levels below `p`.
pub open spec fn bounded(kids: spec_fn(Seq<char>) -> Seq<Seq<char>>, p: Seq<char>, h: nat) -> bool
    decreases h, 0nat, 0nat,
{
    if h == 0 {
        kids(p).len() == 0
    } else {
        all_bounded(kids, p, kids(p), (h - 1) as nat)
    }
}

/// Each child in `names` of `parent` heads a subtree of at most `h` levels.
pub open spec fn all_bounded(
    kids: spec_fn(Seq<char>) -> Seq<Seq<char>>,
    parent: Seq<char>,
    names: Seq<Seq<char>>,
    h: nat,
) -> bool
    decreases h, 1nat, names.len(),
{
    names.len() == 0 || (bounded(kids, spec_child_path(parent, names[0]), h) && all_bounded(
        kids,
        parent,
        names.drop_first(),
        h,
    ))
}

/// The pre-order of the subtree under `p` (at depth `d`), cut `h` levels
/// below `p`: each node, then the subtrees of its children in order.
pub open spec fn preorder(
    kids: spec_fn(Seq<char>) -> Seq<Seq<char>>,
    p: Seq<char>,
    d: nat,
    h: nat,
) -> Seq<(Seq<char>, nat)>
    decreases h, 0nat, 0nat,
{
    seq![(p, d)] + if h == 0 {
        Seq::empty()
    } else {
        forest(kids, p, kids(p), d + 1, (h - 1) as nat)
    }
}

/// The pre-orders of the subtrees under the children `names` of `parent`,
/// one after the other.
pub open spec fn forest(
    kids: spec_fn(Seq<char>) -> Seq<Seq<char>>,
    parent: Seq<char>,
    names: Seq<Seq<char>>,
    d: nat,
    h: nat,
) -> Seq<(Seq<char>, nat)>
    decreases h, 1nat, names.len(),
{
    if names.len() == 0 {
        Seq::empty()
    } else {
        preorder(kids, spec_child_path(parent, names[0]), d, h) + forest(
            kids,
            parent,
            names.drop_first(),
            d,
            h,
        )
    }
}

proof fn lemma_drive_tree(
    kids: spec_fn(Seq<char>) -> Seq<Seq<char>>,
    p: Seq<char>,
    d: nat,
    h: nat,
    rest: Seq<(Seq<char>, nat)>,
    fuel: nat,
)
    requires
        bounded(kids, p, h),
        fuel >= preorder(kids, p, d, h).len(),
    ensures
        drive(kids, seq![(p, d)] + rest, fuel) == preorder(kids, p, d, h) + drive(
            kids,
            rest,
            (fuel - preorder(kids, p, d, h).len()) as nat,
        ),
    decreases h, 0nat, 0nat,
{
    let start = seq![(p, d)] + rest;
    assert(start[0] == (p, d));
    assert(start.drop_first() =~= rest);
    let pre = preorder(kids, p, d, h);
    if h == 0 {
        assert(entries(p, kids(p), d + 1) =~= Seq::<(Seq<char>, nat)>::empty());
        assert(entries(p, kids(p), d + 1) + rest =~= rest);
        assert(pre =~= seq![(p, d)]);
    } else {
        let f = forest(kids, p, kids(p), d + 1, (h - 1) as nat);
        assert(pre =~= seq![(p, d)] + f);
        lemma_drive_forest(kids, p, kids(p), d + 1, (h - 1) as nat, rest, (fuel - 1) as nat);
        assert(seq![(p, d)] + (f + drive(kids, rest, (fuel - 1 - f.len()) as nat)) =~= pre + drive(
            kids,
            rest,
            (fuel - pre.len()) as nat,
        ));
    }
}

proof fn lemma_drive_forest(
    kids: spec_fn(Seq<char>) -> Seq<Seq<char>>,
    parent: Seq<char>,
    names: Seq<Seq<char>>,
    d: nat,
    h: nat,
    rest: Seq<(Seq<char>, nat)>,
    fuel: nat,
)
    requires
        all_bounded(kids, parent, names, h),
        fuel >= forest(kids, parent, names, d, h).len(),
    ensures
        drive(kids, entries(parent, names, d) + rest, fuel) == forest(kids, parent, names, d, h)
            + drive(kids, rest, (fuel - forest(kids, parent, names, d, h).len()) as nat),
    decreases h, 1nat, names.len(),
{
    let f = forest(kids, parent, names, d, h);
    if names.len() == 0 {
        assert(entries(parent, names, d) + rest =~= rest);
        assert(f =~= Seq::<(Seq<char>, nat)>::empty());
        assert(f + drive(kids, rest, fuel) =~= drive(kids, rest, fuel));
    } else {
        let c = spec_child_path(parent, names[0]);
        let tail = names.drop_first();
        let pre = preorder(kids, c, d, h);
        let ft = forest(kids, parent, tail, d, h);
        assert(f == pre + ft);
        assert(entries(parent, names, d) + rest =~= seq![(c, d)] + (entries(parent, tail, d)
            + rest));
        lemma_drive_tree(kids, c, d, h, entries(parent, tail, d) + rest, fuel);
        lemma_drive_forest(kids, parent, tail, d, h, rest, (fuel - pre.len()) as nat);
        assert(pre + (ft + drive(kids, rest, (fuel - pre.len() - ft.len()) as nat)) =~= f + drive(
            kids,
            rest,
            (fuel - f.len()) as nat,
        ));
    }
}

/// A walk started at `root` (`Walk::new`), stepped by taking the next node
/// and pushing that node's children, visits the whole subtree in pre-order:
/// each node at its depth below `root`, before the subtrees of its
/// children, which come in the order given. After as many steps as the
/// subtree has nodes the walk is over: further steps visit nothing.
pub proof fn law_walk_visits_preorder(
    kids: spec_fn(Seq<char>) -> Seq<Seq<char>>,
    root: Seq<char>,
    h: nat,
    fuel: nat,
)
    requires
        bounded(kids, root, h),
        fuel >= preorder(kids, root, 0, h).len(),
    ensures
        drive(kids, seq![(root, 0nat)], fuel) == preorder(kids, root, 0, h),
{
    let pre = preorder(kids, root, 0, h);
    assert(seq![(root, 0nat)] + Seq::<(Seq<char>, nat)>::empty() =~= seq![(root, 0nat)]);
    lemma_drive_tree(kids, root, 0, h, Seq::empty(), fuel);
    assert(drive(kids, Seq::empty(), (fuel - pre.len()) as nat) =~= Seq::<(Seq<char>, nat)>::empty());
    assert(pre + Seq::<(Seq<char>, nat)>::empty() =~= pre);
}

/// The nodes still to visit, next first, with their depth below the root.
pub struct Walk {
    stack: Vec<(String, usize)>,
}

impl Walk {
    /// The nodes still to visit, next first.
    pub closed spec fn pending(&self) -> Seq<(Seq<char>, nat)> {
        Seq::new(
            self.stack@.len(),
            |i: int|
                (
                    self.stack@[self.stack@.len() - 1 - i].0@,
                    self.stack@[self.stack@.len() - 1 - i].1 as nat,
                ),
        )
    }

    /// A walk that starts at `root`, at depth 0.
    pub fn new(root: &str) -> (w: Walk)
        ensures
            w.pending() == seq![(root@, 0nat)],
    {
        let mut stack: Vec<(String, usize)> = Vec::new();
        stack.push((root.to_owned(), 0));
        let w = Walk { stack };
        assert(w.pending() =~= seq![(root@, 0nat)]);
        w
    }

    /// The next node to visit and its depth; `None` when the walk is over.
    pub fn next(&mut self) -> (r: Option<(String, usize)>)
        ensures
            old(self).pending().len() == 0 ==> r is None && final(self).pending() == old(
                self,
            ).pending(),
            old(self).pending().len() > 0 ==> (r matches Some(x) && (x.0@, x.1 as nat) == old(
                self,
            ).pending()[0] && final(self).pending() == old(self).pending().drop_first()),
    {
        let ghost before = self.pending();
        let r = self.stack.pop();
        proof {
            if before.len() > 0 {
                assert(self.pending() =~= before.drop_first());
            } else {
                assert(self.pending() =~= before);
            }
        }
        r
    }

    /// After visiting `parent` at `depth`: its children, in the order
    /// given, are visited next (each with all its descendants before the
    /// following one), one level deeper.
    pub fn push_children(&mut self, parent: &str, depth: usize, children: &Vec<String>)
        requires
            depth < usize::MAX,
        ensures
            final(self).pending() == entries(parent@, children.deep_view(), (depth + 1) as nat)
                + old(self).pending(),
    {
        let ghost before = self.pending();
        let ghost kids = entries(parent@, children.deep_view(), (depth + 1) as nat);
        assert(kids =~= Seq::new(
            children@.len(),
            |i: int| (spec_child_path(parent@, children@[i]@), (depth + 1) as nat),
        ));
        let mut k: usize = children.len();
        assert(kids.subrange(k as int, kids.len() as int) + before =~= before);
        while k > 0
            invariant
                k <= children@.len(),
                kids == Seq::new(
                    children@.len(),
                    |i: int| (spec_child_path(parent@, children@[i]@), (depth + 1) as nat),
                ),
                depth < usize::MAX,
                self.pending() == kids.subrange(k as int, kids.len() as int) + before,
            decreases k,
        {
            let ghost p = self.pending();
            let c = child_path(parent, children[k - 1].as_str());
            self.stack.push((c, depth + 1));
            k = k - 1;
            assert(self.pending() =~= kids.subrange(k as int, kids.len() as int) + before) by {
                assert(self.pending() =~= seq![kids[k as int]] + p);
            }
        }
        assert(kids.subrange(0, kids.len() as int) =~= kids);
    }
}

} // verus!
