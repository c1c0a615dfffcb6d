//! The entity hierarchy that the editor's hierarchy panel shows: which entities
//! are roots, the children of each entity, and which drag-and-drop reparenting
//! the panel accepts.
use vstd::prelude::*;
use vstd::string::StringSliceAdditionalSpecFns;
use vstd::string::StringExecFns;

verus! {

/// An entity of the hierarchy panel, by its id, with its parent if it has one.
#[derive(Debug, Clone, Copy, PartialEq, Eq, Structural)]
pub struct EntityNode {
    pub id: u64,
    pub parent: Option<u64>,
}

/// The ids of the entities without a parent, in the given order.
pub open spec fn roots_of(nodes: Seq<EntityNode>, n: nat) -> Seq<u64>
    decreases n,
{
    if n == 0 {
        Seq::empty()
    } else {
        let prev = roots_of(nodes, (n - 1) as nat);
        if nodes[n - 1].parent is None {
            prev.push(nodes[n - 1].id)
        } else {
            prev
        }
    }
}

/// The ids of the entities whose parent is `parent`, in the given order.
pub open spec fn children_in(nodes: Seq<EntityNode>, parent: u64, n: nat) -> Seq<u64>
    decreases n,
{
    if n == 0 {
        Seq::empty()
    } else {
        let prev = children_in(nodes, parent, (n - 1) as nat);
        if nodes[n - 1].parent == Some(parent) {
            prev.push(nodes[n - 1].id)
        } else {
            prev
        }
    }
}

/// `d` is a child of `a`, or lies below a child of `a`, within `generations`
/// generations.
pub open spec fn below(nodes: Seq<EntityNode>, a: u64, d: u64, generations: nat) -> bool
    decreases generations,
{
    generations > 0 && exists|i: int|
        0 <= i < nodes.len() && #[trigger] nodes[i].parent == Some(a) && (nodes[i].id == d || below(
            nodes,
            nodes[i].id,
            d,
            (generations - 1) as nat,
        ))
}

/// The roots of the hierarchy: the entities without a parent, in the given order.
pub fn hierarchy_roots(nodes: &[EntityNode]) -> (r: Vec<u64>)
    ensures
        r@ == roots_of(nodes@, nodes@.len()),
{
    let mut r: Vec<u64> = Vec::new();
    let mut i: usize = 0;
    while i < nodes.len()
        invariant
            0 <= i <= nodes@.len(),
            r@ == roots_of(nodes@, i as nat),
        decreases nodes@.len() - i,
    {
        if nodes[i].parent.is_none() {
            r.push(nodes[i].id);
        }
        i = i + 1;
    }
    r
}

/// The children of `parent`, in the given order.
pub fn children_of(nodes: &[EntityNode], parent: u64) -> (r: Vec<u64>)
    ensures
        r@ == children_in(nodes@, parent, nodes@.len()),
{
    let mut r: Vec<u64> = Vec::new();
    let mut i: usize = 0;
    while i < nodes.len()
        invariant
            0 <= i <= nodes@.len(),
            r@ == children_in(nodes@, parent, i as nat),
        decreases nodes@.len() - i,
    {
        if nodes[i].parent == Some(parent) {
            r.push(nodes[i].id);
        }
        i = i + 1;
    }
    r
}

/// The hierarchy panel's search for `d` below `a`, as a call that may nest `g`
/// levels deep, looking at the entities from position `i` on: each child of `a`
/// in order is compared with `d` and then searched itself, and the search stops
/// at the first hit. `None` when the search would need more levels than `g`.
pub open spec fn search(nodes: Seq<EntityNode>, a: u64, d: u64, g: nat, i: nat) -> Option<bool>
    decreases g, nodes.len() - i,
{
    if g == 0 {
        None
    } else if i >= nodes.len() {
        Some(false)
    } else if nodes[i as int].parent == Some(a) {
        if nodes[i as int].id == d {
            Some(true)
        } else {
            match search(nodes, nodes[i as int].id, d, (g - 1) as nat, 0) {
                None => None,
                Some(true) => Some(true),
                Some(false) => search(nodes, a, d, g, i + 1),
            }
        }
    } else {
        search(nodes, a, d, g, i + 1)
    }
}

/// The panel's search for `descendant` below `ancestor` returns: it nests at most
/// one level more than there are entities. A search that would nest deeper has
/// met an entity a second time, and repeats itself without end.
pub open spec fn search_returns(nodes: Seq<EntityNode>, ancestor: u64, descendant: u64) -> bool {
    search(nodes, ancestor, descendant, nodes.len() + 1, 0) is Some
}

proof fn lemma_search_is_below(nodes: Seq<EntityNode>, a: u64, d: u64, g: nat, i: nat, b: bool)
    requires
        search(nodes, a, d, g, i) == Some(b),
    ensures
        b == exists|k: int|
            i <= k < nodes.len() && #[trigger] nodes[k].parent == Some(a) && (nodes[k].id == d
                || below(nodes, nodes[k].id, d, (g - 1) as nat)),
    decreases g, nodes.len() - i,
{
    if i < nodes.len() {
        let c = nodes[i as int];
        if c.parent == Some(a) && c.id != d {
            let sub = search(nodes, c.id, d, (g - 1) as nat, 0);
            let sb = sub.unwrap();
            lemma_search_is_below(nodes, c.id, d, (g - 1) as nat, 0, sb);
            if sb {
                assert(below(nodes, c.id, d, (g - 1) as nat));
            } else {
                lemma_search_is_below(nodes, a, d, g, i + 1, b);
            }
        } else if c.parent != Some(a) {
            lemma_search_is_below(nodes, a, d, g, i + 1, b);
        }
    }
}

proof fn lemma_search_more_levels(nodes: Seq<EntityNode>, a: u64, d: u64, g: nat, h: nat, i: nat)
    requires
        search(nodes, a, d, g, i) is Some,
        g <= h,
    ensures
        search(nodes, a, d, h, i) == search(nodes, a, d, g, i),
    decreases g, nodes.len() - i,
{
    if i < nodes.len() {
        let c = nodes[i as int];
        if c.parent == Some(a) && c.id != d {
            lemma_search_more_levels(nodes, c.id, d, (g - 1) as nat, (h - 1) as nat, 0);
            if search(nodes, c.id, d, (g - 1) as nat, 0) == Some(false) {
                lemma_search_more_levels(nodes, a, d, g, h, i + 1);
            }
        } else if c.parent != Some(a) {
            lemma_search_more_levels(nodes, a, d, g, h, i + 1);
        }
    }
}

/// A search that returns has seen every generation: its answer is whether `d`
/// lies below `a` at any depth at all.
pub proof fn lemma_returned_search_sees_all_generations(
    nodes: Seq<EntityNode>,
    a: u64,
    d: u64,
    b: bool,
    h: nat,
)
    requires
        search(nodes, a, d, nodes.len() + 1, 0) == Some(b),
        nodes.len() + 1 <= h,
    ensures
        below(nodes, a, d, h) == b,
        below(nodes, a, d, nodes.len() + 1) == b,
{
    lemma_search_more_levels(nodes, a, d, nodes.len() + 1, h, 0);
    lemma_search_is_below(nodes, a, d, nodes.len() + 1, 0, b);
    lemma_search_is_below(nodes, a, d, h, 0, b);
}

fn search_within(nodes: &[EntityNode], a: u64, d: u64, g: usize) -> (r: Option<bool>)
    ensures
        r == search(nodes@, a, d, g as nat, 0),
    decreases g,
{
    if g == 0 {
        return None;
    }
    let mut i: usize = 0;
    while i < nodes.len()
        invariant
            0 <= i <= nodes@.len(),
            g > 0,
            search(nodes@, a, d, g as nat, 0) == search(nodes@, a, d, g as nat, i as nat),
        decreases nodes@.len() - i,
    {
        if nodes[i].parent == Some(a) {
            if nodes[i].id == d {
                return Some(true);
            }
            match search_within(nodes, nodes[i].id, d, g - 1) {
                None => {
                    return None;
                },
                Some(true) => {
                    return Some(true);
                },
                Some(false) => {},
            }
        }
        i = i + 1;
    }
    Some(false)
}

/// The panel's search for `descendant` below `ancestor`: `None` when it would
/// not return, else whether `descendant` lies below `ancestor`.
pub fn descendant_search(nodes: &[EntityNode], ancestor: u64, descendant: u64) -> (r: Option<bool>)
    requires
        nodes@.len() < usize::MAX,
    ensures
        r == search(nodes@, ancestor, descendant, nodes@.len() + 1, 0),
        r is Some <==> search_returns(nodes@, ancestor, descendant),
        r matches Some(b) ==> b == below(nodes@, ancestor, descendant, nodes@.len() + 1),
{
    let r = search_within(nodes, ancestor, descendant, nodes.len() + 1);
    proof {
        if let Some(b) = r {
            lemma_returned_search_sees_all_generations(nodes@, ancestor, descendant, b, nodes@.len() + 1);
        }
    }
    r
}

/// Whether `descendant` lies below `ancestor`, for a search that returns.
pub fn is_descendant(nodes: &[EntityNode], ancestor: u64, descendant: u64) -> (r: bool)
    requires
        nodes@.len() < usize::MAX,
        search_returns(nodes@, ancestor, descendant),
    ensures
        r == below(nodes@, ancestor, descendant, nodes@.len() + 1),
{
    match descendant_search(nodes, ancestor, descendant) {
        Some(b) => b,
        None => false,
    }
}

/// Whether the hierarchy panel accepts dropping entity `dropped` onto `target` to
/// make `target` its parent: the two differ and `dropped` does not already lie
/// below `target`.
pub fn can_drop_onto(nodes: &[EntityNode], dropped: u64, target: u64) -> (r: bool)
    requires
        nodes@.len() < usize::MAX,
        dropped != target ==> search_returns(nodes@, target, dropped),
    ensures
        r == (dropped != target && !below(nodes@, target, dropped, nodes@.len() + 1)),
{
    dropped != target && !is_descendant(nodes, target, dropped)
}

/// More generations never lose a descendant.
pub proof fn lemma_below_more_generations(nodes: Seq<EntityNode>, a: u64, d: u64, g: nat, h: nat)
    requires
        below(nodes, a, d, g),
        g <= h,
    ensures
        below(nodes, a, d, h),
    decreases g,
{
    let i = choose|i: int|
        0 <= i < nodes.len() && #[trigger] nodes[i].parent == Some(a) && (nodes[i].id == d || below(
            nodes,
            nodes[i].id,
            d,
            (g - 1) as nat,
        ));
    if nodes[i].id != d {
        lemma_below_more_generations(nodes, nodes[i].id, d, (g - 1) as nat, (h - 1) as nat);
    }
}

/// Every child of an entity is below it, and so is everything below that child,
/// one generation further.
pub proof fn lemma_child_is_below(nodes: Seq<EntityNode>, i: int, d: u64, g: nat)
    requires
        0 <= i < nodes.len(),
        nodes[i].parent is Some,
        nodes[i].id == d || below(nodes, nodes[i].id, d, g),
    ensures
        below(nodes, nodes[i].parent.unwrap(), d, g + 1),
{
}


/// The hierarchy after entity `dropped` is given the parent `target`.
pub open spec fn reparented(nodes: Seq<EntityNode>, dropped: u64, target: u64) -> Seq<EntityNode> {
    Seq::new(
        nodes.len(),
        |i: int|
            if nodes[i].id == dropped {
                EntityNode { id: dropped, parent: Some(target) }
            } else {
                nodes[i]
            },
    )
}

proof fn lemma_below_reparented(nodes: Seq<EntityNode>, dropped: u64, target: u64, x: u64, g: nat)
    requires
        below(reparented(nodes, dropped, target), x, dropped, g),
    ensures
        x == target || below(nodes, x, target, g),
    decreases g,
{
    let new = reparented(nodes, dropped, target);
    let i = choose|i: int|
        0 <= i < new.len() && #[trigger] new[i].parent == Some(x) && (new[i].id == dropped || below(
            new,
            new[i].id,
            dropped,
            (g - 1) as nat,
        ));
    if new[i].id != dropped {
        assert(new[i] == nodes[i]);
        lemma_below_reparented(nodes, dropped, target, new[i].id, (g - 1) as nat);
        assert(nodes[i].parent == Some(x));
    }
}

/// A drop that the panel accepts keeps the dropped entity out of its own
/// descendants, when the target does not lie below the dropped entity.
pub proof fn lemma_accepted_drop_makes_no_loop(nodes: Seq<EntityNode>, dropped: u64, target: u64)
    requires
        dropped != target,
        !below(nodes, target, dropped, nodes.len() + 1),
        !below(nodes, dropped, target, nodes.len() + 1),
    ensures
        !below(reparented(nodes, dropped, target), dropped, dropped, nodes.len() + 1),
{
    if below(reparented(nodes, dropped, target), dropped, dropped, nodes.len() + 1) {
        lemma_below_reparented(nodes, dropped, target, dropped, nodes.len() + 1);
    }
}


/// The last position among the first `n` entities whose id is `id`.
pub open spec fn last_position(nodes: Seq<EntityNode>, id: u64, n: nat) -> Option<nat>
    decreases n,
{
    if n == 0 {
        None
    } else if nodes[n - 1].id == id {
        Some((n - 1) as nat)
    } else {
        last_position(nodes, id, (n - 1) as nat)
    }
}

/// The position in the saved entity list of each entity's parent: `None` for an
/// entity without a parent or whose parent is not in the list.
pub open spec fn parent_position(nodes: Seq<EntityNode>, i: int) -> Option<nat> {
    match nodes[i].parent {
        Some(p) => last_position(nodes, p, nodes.len()),
        None => None,
    }
}

fn find_last(nodes: &[EntityNode], id: u64) -> (r: Option<usize>)
    ensures
        r matches Some(k) ==> k < nodes@.len() && last_position(nodes@, id, nodes@.len()) == Some(
            k as nat,
        ),
        r is None ==> last_position(nodes@, id, nodes@.len()) is None,
{
    let mut k: usize = nodes.len();
    while k > 0
        invariant
            0 <= k <= nodes@.len(),
            last_position(nodes@, id, nodes@.len()) == last_position(nodes@, id, k as nat),
        decreases k,
    {
        if nodes[k - 1].id == id {
            return Some(k - 1);
        }
        k = k - 1;
    }
    None
}

/// For saving a scene: the position of each entity's parent in the entity list,
/// in the order of the list.
pub fn parent_positions(nodes: &[EntityNode]) -> (r: Vec<Option<usize>>)
    ensures
        r@.len() == nodes@.len(),
        forall|i: int|
            0 <= i < nodes@.len() ==> match parent_position(nodes@, i) {
                Some(k) => (#[trigger] r@[i]) == Some(k as usize),
                None => r@[i] is None,
            },
{
    let mut r: Vec<Option<usize>> = Vec::new();
    let mut i: usize = 0;
    while i < nodes.len()
        invariant
            0 <= i <= nodes@.len(),
            r@.len() == i,
            forall|j: int|
                0 <= j < i ==> match parent_position(nodes@, j) {
                    Some(k) => (#[trigger] r@[j]) == Some(k as usize),
                    None => r@[j] is None,
                },
        decreases nodes@.len() - i,
    {
        let pos = match nodes[i].parent {
            Some(p) => find_last(nodes, p),
            None => None,
        };
        r.push(pos);
        i = i + 1;
    }
    r
}

/// For loading a scene: the parent position of each saved entity that names one
/// of the `parent_idx.len()` entities; other positions give no parent.
pub fn resolve_parent_positions(parent_idx: &[Option<usize>]) -> (r: Vec<Option<usize>>)
    ensures
        r@.len() == parent_idx@.len(),
        forall|i: int|
            0 <= i < parent_idx@.len() ==> (#[trigger] r@[i]) == match parent_idx@[i] {
                Some(k) => if k < parent_idx@.len() {
                    Some(k)
                } else {
                    None
                },
                None => None,
            },
{
    let mut r: Vec<Option<usize>> = Vec::new();
    let mut i: usize = 0;
    while i < parent_idx.len()
        invariant
            0 <= i <= parent_idx@.len(),
            r@.len() == i,
            forall|j: int|
                0 <= j < i ==> (#[trigger] r@[j]) == match parent_idx@[j] {
                    Some(k) => if k < parent_idx@.len() {
                        Some(k)
                    } else {
                        None
                    },
                    None => None,
                },
        decreases parent_idx@.len() - i,
    {
        let link = match parent_idx[i] {
            Some(k) => if k < parent_idx.len() {
                Some(k)
            } else {
                None
            },
            None => None,
        };
        r.push(link);
        i = i + 1;
    }
    r
}

/// The rows that the hierarchy panel shows below and including entity `id` at
/// `depth`, as (id, depth): the entity, then the rows of each of its children in
/// order, down to `generations` generations.
pub open spec fn subtree_rows(nodes: Seq<EntityNode>, id: u64, depth: nat, generations: nat) -> Seq<
    (u64, nat),
>
    decreases generations, 0nat,
{
    if generations == 0 {
        Seq::empty()
    } else {
        seq![(id, depth)] + forest_rows(
            nodes,
            children_in(nodes, id, nodes.len()),
            depth + 1,
            (generations - 1) as nat,
            children_in(nodes, id, nodes.len()).len(),
        )
    }
}

/// The rows of the first `n` of the entities `ids`, one after the other.
pub open spec fn forest_rows(
    nodes: Seq<EntityNode>,
    ids: Seq<u64>,
    depth: nat,
    generations: nat,
    n: nat,
) -> Seq<(u64, nat)>
    decreases generations, n,
{
    if n == 0 || n > ids.len() {
        Seq::empty()
    } else {
        forest_rows(nodes, ids, depth, generations, (n - 1) as nat) + subtree_rows(
            nodes,
            ids[n - 1],
            depth,
            generations,
        )
    }
}

/// The panel's walk through entity `id` and everything below it returns when
/// nested at most `g` levels deep.
pub open spec fn walk_ends(nodes: Seq<EntityNode>, id: u64, g: nat) -> bool
    decreases g,
{
    g > 0 && forall|j: int|
        0 <= j < children_in(nodes, id, nodes.len()).len() ==> walk_ends(
            nodes,
            #[trigger] children_in(nodes, id, nodes.len())[j],
            (g - 1) as nat,
        )
}

/// The walks through each of the first `n` entities of `ids` return within `g` levels.
pub open spec fn walks_end(nodes: Seq<EntityNode>, ids: Seq<u64>, g: nat, n: nat) -> bool {
    forall|j: int| 0 <= j < n && j < ids.len() ==> walk_ends(nodes, #[trigger] ids[j], g)
}

/// The panel's walk from the roots returns: it nests at most one level more than
/// there are entities. A walk that would nest deeper has met an entity a second
/// time, and repeats itself without end.
pub open spec fn rows_return(nodes: Seq<EntityNode>) -> bool {
    walks_end(
        nodes,
        roots_of(nodes, nodes.len()),
        nodes.len() + 1,
        roots_of(nodes, nodes.len()).len(),
    )
}

proof fn lemma_subtree_rows_more_levels(nodes: Seq<EntityNode>, id: u64, depth: nat, g: nat, h: nat)
    requires
        walk_ends(nodes, id, g),
        g <= h,
    ensures
        subtree_rows(nodes, id, depth, h) == subtree_rows(nodes, id, depth, g),
    decreases g, 0nat,
{
    let kids = children_in(nodes, id, nodes.len());
    lemma_forest_rows_more_levels(nodes, kids, depth + 1, (g - 1) as nat, (h - 1) as nat, kids.len());
}

proof fn lemma_forest_rows_more_levels(
    nodes: Seq<EntityNode>,
    ids: Seq<u64>,
    depth: nat,
    g: nat,
    h: nat,
    n: nat,
)
    requires
        walks_end(nodes, ids, g, n),
        g <= h,
    ensures
        forest_rows(nodes, ids, depth, h, n) == forest_rows(nodes, ids, depth, g, n),
    decreases g, n,
{
    if n > 0 && n <= ids.len() {
        assert(walk_ends(nodes, ids[n - 1], g));
        lemma_forest_rows_more_levels(nodes, ids, depth, g, h, (n - 1) as nat);
        lemma_subtree_rows_more_levels(nodes, ids[n - 1], depth, g, h);
    }
}

/// When the panel's walk returns, more levels add no rows: the rows are those of
/// the whole hierarchy below the roots.
pub proof fn lemma_returned_walk_shows_all_rows(nodes: Seq<EntityNode>, h: nat)
    requires
        rows_return(nodes),
        nodes.len() + 1 <= h,
    ensures
        forest_rows(
            nodes,
            roots_of(nodes, nodes.len()),
            0,
            h,
            roots_of(nodes, nodes.len()).len(),
        ) == forest_rows(
            nodes,
            roots_of(nodes, nodes.len()),
            0,
            nodes.len() + 1,
            roots_of(nodes, nodes.len()).len(),
        ),
{
    lemma_forest_rows_more_levels(
        nodes,
        roots_of(nodes, nodes.len()),
        0,
        nodes.len() + 1,
        h,
        roots_of(nodes, nodes.len()).len(),
    );
}

/// The rows as (id, depth) pairs.
pub open spec fn row_view(s: Seq<(u64, usize)>) -> Seq<(u64, nat)> {
    s.map_values(|r: (u64, usize)| (r.0, r.1 as nat))
}

fn walk_subtree(
    nodes: &[EntityNode],
    id: u64,
    depth: usize,
    generations: usize,
    out: &mut Vec<(u64, usize)>,
) -> (ok: bool)
    requires
        depth + generations <= usize::MAX,
    ensures
        ok == walk_ends(nodes@, id, generations as nat),
        row_view(final(out)@) == row_view(old(out)@) + subtree_rows(
            nodes@,
            id,
            depth as nat,
            generations as nat,
        ),
    decreases generations, 0nat,
{
    if generations == 0 {
        assert(row_view(out@) =~= row_view(old(out)@) + subtree_rows(nodes@, id, depth as nat, 0));
        return false;
    }
    let ghost start = row_view(out@);
    out.push((id, depth));
    assert(row_view(out@) =~= start + seq![(id, depth as nat)]);
    let kids = children_of(nodes, id);
    let ok = walk_forest(nodes, &kids, depth + 1, generations - 1, out);
    assert(row_view(out@) =~= start + subtree_rows(nodes@, id, depth as nat, generations as nat));
    ok
}

fn walk_forest(
    nodes: &[EntityNode],
    ids: &Vec<u64>,
    depth: usize,
    generations: usize,
    out: &mut Vec<(u64, usize)>,
) -> (ok: bool)
    requires
        depth + generations <= usize::MAX,
    ensures
        ok == walks_end(nodes@, ids@, generations as nat, ids@.len()),
        row_view(final(out)@) == row_view(old(out)@) + forest_rows(
            nodes@,
            ids@,
            depth as nat,
            generations as nat,
            ids@.len(),
        ),
    decreases generations, 1nat,
{
    let ghost start = row_view(out@);
    let mut k: usize = 0;
    let mut ok = true;
    assert(row_view(out@) =~= start + forest_rows(nodes@, ids@, depth as nat, generations as nat, 0));
    while k < ids.len()
        invariant
            0 <= k <= ids@.len(),
            depth + generations <= usize::MAX,
            start == row_view(old(out)@),
            ok == walks_end(nodes@, ids@, generations as nat, k as nat),
            row_view(out@) == start + forest_rows(
                nodes@,
                ids@,
                depth as nat,
                generations as nat,
                k as nat,
            ),
        decreases ids@.len() - k,
    {
        let sub = walk_subtree(nodes, ids[k], depth, generations, out);
        ok = ok && sub;
        assert(row_view(out@) =~= start + forest_rows(
            nodes@,
            ids@,
            depth as nat,
            generations as nat,
            (k + 1) as nat,
        ));
        k = k + 1;
    }
    ok
}

/// The rows of the hierarchy panel, as (entity id, depth), when the panel's walk
/// returns: each root in order, followed by the rows of its children. `None`
/// when the walk would not return.
pub fn try_hierarchy_rows(nodes: &[EntityNode]) -> (r: Option<Vec<(u64, usize)>>)
    requires
        nodes@.len() < usize::MAX,
    ensures
        r is Some <==> rows_return(nodes@),
        r matches Some(v) ==> row_view(v@) == forest_rows(
            nodes@,
            roots_of(nodes@, nodes@.len()),
            0,
            nodes@.len() + 1,
            roots_of(nodes@, nodes@.len()).len(),
        ),
{
    let roots = hierarchy_roots(nodes);
    let mut out: Vec<(u64, usize)> = Vec::new();
    assert(row_view(out@) =~= Seq::empty());
    let ok = walk_forest(nodes, &roots, 0, nodes.len() + 1, &mut out);
    assert(row_view(out@) =~= row_view(Seq::empty()) + forest_rows(
        nodes@,
        roots@,
        0,
        (nodes@.len() + 1) as nat,
        roots@.len(),
    ));
    if ok {
        Some(out)
    } else {
        None
    }
}

/// The rows of the hierarchy panel, as (entity id, depth): each root in order,
/// followed by the rows of its children.
pub fn hierarchy_rows(nodes: &[EntityNode]) -> (r: Vec<(u64, usize)>)
    requires
        nodes@.len() < usize::MAX,
        rows_return(nodes@),
    ensures
        row_view(r@) == forest_rows(
            nodes@,
            roots_of(nodes@, nodes@.len()),
            0,
            nodes@.len() + 1,
            roots_of(nodes@, nodes@.len()).len(),
        ),
{
    match try_hierarchy_rows(nodes) {
        Some(v) => v,
        None => Vec::new(),
    }
}


/// The parent recorded for entity `id`: that of the last entity with this id.
pub open spec fn parent_of(nodes: Seq<EntityNode>, id: u64) -> Option<u64> {
    match last_position(nodes, id, nodes.len()) {
        Some(k) => nodes[k as int].parent,
        None => None,
    }
}

/// Walking up from `e` along at most `steps` parent links reaches `entity`.
pub open spec fn reaches_up(nodes: Seq<EntityNode>, e: u64, entity: u64, steps: nat) -> bool
    decreases steps,
{
    steps > 0 && match parent_of(nodes, e) {
        Some(p) => p == entity || reaches_up(nodes, p, entity, (steps - 1) as nat),
        None => false,
    }
}

/// How far up the inspector looks for `entity` among a candidate's ancestors.
pub const PARENT_SEARCH_DEPTH: usize = 64;

/// The ids of the first `n` entities that the inspector offers as a new parent
/// of `entity`: every other entity that does not have `entity` among its
/// ancestors within `PARENT_SEARCH_DEPTH` parent links, in order.
pub open spec fn candidates_in(nodes: Seq<EntityNode>, entity: u64, n: nat) -> Seq<u64>
    decreases n,
{
    if n == 0 {
        Seq::empty()
    } else {
        let prev = candidates_in(nodes, entity, (n - 1) as nat);
        let e = nodes[n - 1].id;
        if e != entity && !reaches_up(nodes, e, entity, PARENT_SEARCH_DEPTH as nat) {
            prev.push(e)
        } else {
            prev
        }
    }
}

fn parent_lookup(nodes: &[EntityNode], id: u64) -> (r: Option<u64>)
    ensures
        r == parent_of(nodes@, id),
{
    match find_last(nodes, id) {
        Some(k) => nodes[k].parent,
        None => None,
    }
}

fn has_ancestor(nodes: &[EntityNode], e: u64, entity: u64) -> (r: bool)
    ensures
        r == reaches_up(nodes@, e, entity, PARENT_SEARCH_DEPTH as nat),
{
    let mut check = e;
    let mut step: usize = 0;
    while step < PARENT_SEARCH_DEPTH
        invariant
            step <= PARENT_SEARCH_DEPTH,
            reaches_up(nodes@, e, entity, PARENT_SEARCH_DEPTH as nat) == reaches_up(
                nodes@,
                check,
                entity,
                (PARENT_SEARCH_DEPTH - step) as nat,
            ),
        decreases PARENT_SEARCH_DEPTH - step,
    {
        match parent_lookup(nodes, check) {
            Some(pe) => {
                if pe == entity {
                    return true;
                }
                check = pe;
            },
            None => {
                return false;
            },
        }
        step = step + 1;
    }
    false
}

/// The entities that the inspector offers as a new parent of `entity`, in order.
pub fn parent_candidates(nodes: &[EntityNode], entity: u64) -> (r: Vec<u64>)
    ensures
        r@ == candidates_in(nodes@, entity, nodes@.len()),
{
    let mut r: Vec<u64> = Vec::new();
    let mut i: usize = 0;
    while i < nodes.len()
        invariant
            0 <= i <= nodes@.len(),
            r@ == candidates_in(nodes@, entity, i as nat),
        decreases nodes@.len() - i,
    {
        let e = nodes[i].id;
        if e != entity && !has_ancestor(nodes, e, entity) {
            r.push(e);
        }
        i = i + 1;
    }
    r
}

/// Choosing any offered candidate as the new parent never makes `entity` its own
/// ancestor within the searched depth: a candidate's ancestors, walked up to the
/// searched depth, do not include `entity`.
pub proof fn lemma_candidates_exclude_descendants(nodes: Seq<EntityNode>, entity: u64, n: nat, k: int)
    requires
        n <= nodes.len(),
        0 <= k < candidates_in(nodes, entity, n).len(),
    ensures
        candidates_in(nodes, entity, n)[k] != entity,
        !reaches_up(nodes, candidates_in(nodes, entity, n)[k], entity, PARENT_SEARCH_DEPTH as nat),
    decreases n,
{
    if n > 0 {
        let prev = candidates_in(nodes, entity, (n - 1) as nat);
        if k < prev.len() {
            lemma_candidates_exclude_descendants(nodes, entity, (n - 1) as nat, k);
        }
    }
}

/// How many of the first `n` names start with `prefix`, byte for byte.
pub open spec fn prefix_count(names: Seq<&str>, prefix: Seq<u8>, n: nat) -> nat
    decreases n,
{
    if n == 0 {
        0
    } else {
        prefix_count(names, prefix, (n - 1) as nat) + if prefix.is_prefix_of(names[n - 1].spec_bytes()) {
            1nat
        } else {
            0nat
        }
    }
}

/// Whether `name` starts with `prefix`.
pub fn starts_with(name: &str, prefix: &str) -> (r: bool)
    ensures
        r == prefix.spec_bytes().is_prefix_of(name.spec_bytes()),
{
    let b = name.as_bytes();
    let p = prefix.as_bytes();
    if b.len() < p.len() {
        return false;
    }
    let mut i: usize = 0;
    while i < p.len()
        invariant
            0 <= i <= p@.len(),
            p@.len() <= b@.len(),
            b@ == name.spec_bytes(),
            p@ == prefix.spec_bytes(),
            forall|k: int| 0 <= k < i ==> p@[k] == b@[k],
        decreases p@.len() - i,
    {
        if p[i] != b[i] {
            return false;
        }
        i = i + 1;
    }
    assert(p@ =~= b@.subrange(0, p@.len() as int));
    true
}

/// The number in the name of a new entity of kind `prefix` ("Empty", "Cube", ...):
/// one more than the number of names that start with `prefix`, counted in `u32`.
pub fn next_name_number(names: &[&str], prefix: &str) -> (r: u32)
    requires
        (prefix_count(names@, prefix.spec_bytes(), names@.len()) as u32) < u32::MAX,
    ensures
        r == (prefix_count(names@, prefix.spec_bytes(), names@.len()) as u32) + 1,
{
    let mut count: usize = 0;
    let mut i: usize = 0;
    while i < names.len()
        invariant
            0 <= i <= names@.len(),
            count == prefix_count(names@, prefix.spec_bytes(), i as nat),
            count <= i,
        decreases names@.len() - i,
    {
        if starts_with(names[i], prefix) {
            count = count + 1;
        }
        i = i + 1;
    }
    count as u32 + 1
}

/// The name of an entity pasted from the clipboard: the copied name followed by
/// " (Pasted)".
pub fn pasted_name(name: &str) -> (r: String)
    ensures
        r@ == name@ + " (Pasted)"@,
{
    let mut r = name.to_owned();
    r.append(" (Pasted)");
    r
}

/// The name of a duplicated entity: the name followed by " Copy".
pub fn duplicate_name(name: &str) -> (r: String)
    ensures
        r@ == name@ + " Copy"@,
{
    let mut r = name.to_owned();
    r.append(" Copy");
    r
}

/// What `str::to_lowercase` makes of a text: each character replaced by its
/// lowercase mapping as Unicode defines it.
pub uninterp spec fn lowercase(s: Seq<char>) -> Seq<char>;

/// Lowercases a text with `str::to_lowercase`, which depends on the text alone.
#[verifier::external_body]
fn to_lower(s: &str) -> (r: String)
    ensures
        r@ == lowercase(s@),
{
    s.to_lowercase()
}

/// `needle` occurs in `hay` as a run of consecutive characters; an empty
/// `needle` occurs in every text.
pub open spec fn occurs_in(hay: Seq<char>, needle: Seq<char>) -> bool {
    exists|i: int| 0 <= i <= hay.len() - needle.len() && #[trigger] hay.subrange(i, i + needle.len()) == needle
}

fn chars_of(s: &str) -> (v: Vec<char>)
    ensures
        v@ == s@,
{
    let n = s.unicode_len();
    let mut v: Vec<char> = Vec::new();
    let mut i: usize = 0;
    while i < n
        invariant
            0 <= i <= n,
            n == s@.len(),
            v@ == s@.subrange(0, i as int),
        decreases n - i,
    {
        v.push(s.get_char(i));
        i = i + 1;
    }
    v
}

fn occurs(hay: &Vec<char>, needle: &Vec<char>) -> (r: bool)
    ensures
        r == occurs_in(hay@, needle@),
{
    if needle.len() > hay.len() {
        return false;
    }
    let n = needle.len();
    let last = hay.len() - n;
    let mut i: usize = 0;
    while i <= last
        invariant
            n == needle@.len(),
            n <= hay@.len(),
            hay@.len() <= usize::MAX,
            last == hay@.len() - n,
            i <= last,
            forall|k: int| 0 <= k < i ==> #[trigger] hay@.subrange(k, k + n) != needle@,
        decreases last + 1 - i,
    {
        let mut j: usize = 0;
        let mut same = true;
        while j < n
            invariant
                n == needle@.len(),
                hay@.len() <= usize::MAX,
                i + n <= hay@.len(),
                0 <= j <= n,
                same == forall|t: int| 0 <= t < j ==> hay@[i + t] == needle@[t],
            decreases n - j,
        {
            if hay[i + j] != needle[j] {
                same = false;
            }
            j = j + 1;
        }
        if same {
            assert(hay@.subrange(i as int, i + n) =~= needle@);
            return true;
        }
        assert(hay@.subrange(i as int, i + n) != needle@) by {
            let t = choose|t: int| 0 <= t < n && hay@[i + t] != needle@[t];
            assert(hay@.subrange(i as int, i + n)[t] == hay@[i + t]);
        }
        if i == last {
            return false;
        }
        i = i + 1;
    }
    false
}

/// Whether `needle` occurs in `hay` as a run of consecutive characters.
pub fn text_contains(hay: &str, needle: &str) -> (r: bool)
    ensures
        r == occurs_in(hay@, needle@),
{
    let h = chars_of(hay);
    let n = chars_of(needle);
    occurs(&h, &n)
}

/// Whether the entity named `name` is listed under a search for `filter`: its
/// lowercased name holds the lowercased filter.
pub fn name_matches(name: &str, filter: &str) -> (r: bool)
    ensures
        r == occurs_in(lowercase(name@), lowercase(filter@)),
{
    let n = to_lower(name);
    let f = to_lower(filter);
    text_contains(n.as_str(), f.as_str())
}

/// The positions of the first `n` names that a search for `filter` lists.
pub open spec fn matching_positions(names: Seq<&str>, filter: Seq<char>, n: nat) -> Seq<usize>
    decreases n,
{
    if n == 0 {
        Seq::empty()
    } else {
        let prev = matching_positions(names, filter, (n - 1) as nat);
        if occurs_in(lowercase(names[n - 1]@), lowercase(filter)) {
            prev.push((n - 1) as usize)
        } else {
            prev
        }
    }
}

/// The entities that the hierarchy panel lists for the search text `filter`, as
/// positions in `names`: `None` when the lowercased filter is empty and the
/// panel shows the tree instead, else the positions of the matching names in order.
pub fn search_results(names: &[&str], filter: &str) -> (r: Option<Vec<usize>>)
    ensures
        lowercase(filter@).len() == 0 <==> r is None,
        r matches Some(v) ==> v@ == matching_positions(names@, filter@, names@.len()),
{
    let f = to_lower(filter);
    if f.unicode_len() == 0 {
        return None;
    }
    let mut v: Vec<usize> = Vec::new();
    let mut i: usize = 0;
    while i < names.len()
        invariant
            0 <= i <= names@.len(),
            v@ == matching_positions(names@, filter@, i as nat),
        decreases names@.len() - i,
    {
        if name_matches(names[i], filter) {
            v.push(i);
        }
        i = i + 1;
    }
    Some(v)
}

} // verus!
