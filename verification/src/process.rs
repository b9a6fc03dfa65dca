use std::collections::HashSet;
use vstd::prelude::*;

verus! {

broadcast use vstd::std_specs::hash::group_hash_axioms;

/// Passes over the process list that `collect_descendant_pids` makes at most.
pub const MAX_TREE_PASSES: u32 = 64;

/// One pass over the `(parent, pid)` edges in order: an edge whose parent is
/// already in the set adds its pid, and later edges see the additions.
pub open spec fn tree_pass(s: Set<u32>, edges: Seq<(u32, u32)>) -> Set<u32>
    decreases edges.len(),
{
    if edges.len() == 0 {
        s
    } else {
        let t = tree_pass(s, edges.drop_last());
        if t.contains(edges.last().0) {
            t.insert(edges.last().1)
        } else {
            t
        }
    }
}

/// Up to `n` passes, stopping after the first pass that adds nothing.
pub open spec fn tree_passes(s: Set<u32>, edges: Seq<(u32, u32)>, n: nat) -> Set<u32>
    decreases n,
{
    if n == 0 {
        s
    } else {
        let t = tree_pass(s, edges);
        if t == s {
            s
        } else {
            tree_passes(t, edges, (n - 1) as nat)
        }
    }
}

/// `root` and its descendants as `collect_descendant_pids` finds them in a
/// process snapshot given as `(parent, pid)` edges.
pub open spec fn descendants(root: u32, edges: Seq<(u32, u32)>) -> Set<u32> {
    if root == 0 {
        set![0u32]
    } else {
        tree_passes(set![root], edges, MAX_TREE_PASSES as nat)
    }
}

proof fn lemma_pass_grows(s: Set<u32>, edges: Seq<(u32, u32)>)
    ensures
        s.subset_of(tree_pass(s, edges)),
        forall|p: u32| #[trigger] tree_pass(s, edges).contains(p) ==> s.contains(p) || exists|k: int|
            0 <= k < edges.len() && edges[k].1 == p && tree_pass(s, edges).contains(edges[k].0),
    decreases edges.len(),
{
    if edges.len() > 0 {
        lemma_pass_grows(s, edges.drop_last());
        let t = tree_pass(s, edges.drop_last());
        assert forall|p: u32| #[trigger] tree_pass(s, edges).contains(p) implies s.contains(p) || exists|
            k: int,
        | 0 <= k < edges.len() && edges[k].1 == p && tree_pass(s, edges).contains(edges[k].0) by {
            if t.contains(p) {
                if !s.contains(p) {
                    let k = choose|k: int|
                        0 <= k < edges.drop_last().len() && edges.drop_last()[k].1 == p && t.contains(
                            edges.drop_last()[k].0,
                        );
                    assert(edges[k] == edges.drop_last()[k]);
                }
            } else {
                assert(edges[edges.len() - 1].1 == p);
            }
        }
    }
}

proof fn lemma_passes_sound(s: Set<u32>, edges: Seq<(u32, u32)>, n: nat, root: u32)
    requires
        s.contains(root),
        forall|p: u32| #[trigger] s.contains(p) ==> p == root || exists|k: int|
            0 <= k < edges.len() && edges[k].1 == p && s.contains(edges[k].0),
    ensures
        tree_passes(s, edges, n).contains(root),
        forall|p: u32| #[trigger] tree_passes(s, edges, n).contains(p) ==> p == root || exists|k: int|
            0 <= k < edges.len() && edges[k].1 == p && tree_passes(s, edges, n).contains(edges[k].0),
    decreases n,
{
    if n > 0 {
        let t = tree_pass(s, edges);
        lemma_pass_grows(s, edges);
        if t != s {
            assert forall|p: u32| #[trigger] t.contains(p) implies p == root || exists|k: int|
                0 <= k < edges.len() && edges[k].1 == p && t.contains(edges[k].0) by {
                if s.contains(p) && p != root {
                    let k = choose|k: int| 0 <= k < edges.len() && edges[k].1 == p && s.contains(edges[k].0);
                    assert(t.contains(edges[k].0));
                }
            }
            lemma_passes_sound(t, edges, (n - 1) as nat, root);
        }
    }
}

/// Every process `collect_descendant_pids` returns is `root` itself or the
/// child, in the snapshot, of another process it returns; and `root` is
/// always among them.
pub proof fn lemma_descendants_sound(root: u32, edges: Seq<(u32, u32)>)
    ensures
        descendants(root, edges).contains(root),
        forall|p: u32| #[trigger] descendants(root, edges).contains(p) ==> p == root || exists|k: int|
            0 <= k < edges.len() && edges[k].1 == p && descendants(root, edges).contains(edges[k].0),
{
    if root != 0 {
        lemma_passes_sound(set![root], edges, MAX_TREE_PASSES as nat, root);
    }
}

/// The pids that are a child, by an edge of `edges`, of a pid in `s`.
pub open spec fn children_of(s: Set<u32>, edges: Seq<(u32, u32)>) -> Set<u32> {
    Set::new(|p: u32| exists|k: int| 0 <= k < edges.len() && edges[k].1 == p && s.contains(edges[k].0))
}

/// `root` and the processes at most `d` generations below it in the snapshot.
pub open spec fn within_generations(root: u32, edges: Seq<(u32, u32)>, d: nat) -> Set<u32>
    decreases d,
{
    if d == 0 {
        set![root]
    } else {
        let s = within_generations(root, edges, (d - 1) as nat);
        s.union(children_of(s, edges))
    }
}

proof fn lemma_pass_adds_children(s: Set<u32>, edges: Seq<(u32, u32)>)
    ensures
        children_of(s, edges).subset_of(tree_pass(s, edges)),
    decreases edges.len(),
{
    if edges.len() > 0 {
        let init = edges.drop_last();
        lemma_pass_adds_children(s, init);
        lemma_pass_grows(s, init);
        let t = tree_pass(s, init);
        assert forall|p: u32| children_of(s, edges).contains(p) implies tree_pass(s, edges).contains(p) by {
            let k = choose|k: int| 0 <= k < edges.len() && edges[k].1 == p && s.contains(edges[k].0);
            if k < edges.len() - 1 {
                assert(init[k] == edges[k]);
                assert(children_of(s, init).contains(p));
            }
        }
    }
}

proof fn lemma_closed_keeps_generations(s: Set<u32>, edges: Seq<(u32, u32)>, root: u32, d: nat, m: nat)
    requires
        within_generations(root, edges, d).subset_of(s),
        children_of(s, edges).subset_of(s),
    ensures
        within_generations(root, edges, d + m).subset_of(s),
    decreases m,
{
    if m > 0 {
        lemma_closed_keeps_generations(s, edges, root, d, (m - 1) as nat);
        let w = within_generations(root, edges, (d + m - 1) as nat);
        assert(within_generations(root, edges, d + m) == w.union(children_of(w, edges)));
        assert forall|p: u32| children_of(w, edges).contains(p) implies s.contains(p) by {
            let k = choose|k: int| 0 <= k < edges.len() && edges[k].1 == p && w.contains(edges[k].0);
            assert(children_of(s, edges).contains(p));
        }
    }
}

proof fn lemma_passes_complete(s: Set<u32>, edges: Seq<(u32, u32)>, n: nat, root: u32, d: nat)
    requires
        within_generations(root, edges, d).subset_of(s),
    ensures
        within_generations(root, edges, d + n).subset_of(tree_passes(s, edges, n)),
    decreases n,
{
    if n > 0 {
        let t = tree_pass(s, edges);
        lemma_pass_grows(s, edges);
        lemma_pass_adds_children(s, edges);
        if t == s {
            lemma_closed_keeps_generations(s, edges, root, d, n);
        } else {
            let w = within_generations(root, edges, d);
            assert(within_generations(root, edges, d + 1) == w.union(children_of(w, edges)));
            assert forall|p: u32| children_of(w, edges).contains(p) implies t.contains(p) by {
                let k = choose|k: int| 0 <= k < edges.len() && edges[k].1 == p && w.contains(edges[k].0);
                assert(children_of(s, edges).contains(p));
            }
            lemma_passes_complete(t, edges, (n - 1) as nat, root, d + 1);
            assert(d + 1 + (n - 1) == d + n);
        }
    }
}

/// Every process at most `MAX_TREE_PASSES` generations below `root` in the
/// snapshot is among those `collect_descendant_pids` returns for a root other
/// than the idle process 0.
pub proof fn lemma_descendants_complete(root: u32, edges: Seq<(u32, u32)>)
    requires
        root != 0,
    ensures
        within_generations(root, edges, MAX_TREE_PASSES as nat).subset_of(descendants(root, edges)),
{
    lemma_passes_complete(set![root], edges, MAX_TREE_PASSES as nat, root, 0);
    assert(0 + MAX_TREE_PASSES as nat == MAX_TREE_PASSES as nat);
}

/// One pass over `edges`, adding to `set` (and to `list`, which holds the
/// same pids) each pid whose parent is in the set. Returns whether anything
/// was added.
fn tree_pass_exec(set: &mut HashSet<u32>, list: &mut Vec<u32>, edges: &Vec<(u32, u32)>) -> (grew: bool)
    requires
        forall|p: u32| old(set)@.contains(p) <==> old(list)@.contains(p),
    ensures
        final(set)@ == tree_pass(old(set)@, edges@),
        forall|p: u32| final(set)@.contains(p) <==> final(list)@.contains(p),
        grew <==> final(set)@ != old(set)@,
{
    let ghost start = set@;
    let mut grew = false;
    let mut i: usize = 0;
    proof {
        assert(edges@.take(0) =~= Seq::<(u32, u32)>::empty());
    }
    while i < edges.len()
        invariant
            i <= edges@.len(),
            set@ == tree_pass(start, edges@.take(i as int)),
            forall|p: u32| set@.contains(p) <==> list@.contains(p),
            start.subset_of(set@),
            grew <==> exists|x: u32| set@.contains(x) && !start.contains(x),
        decreases edges.len() - i,
    {
        let (parent, pid) = edges[i];
        proof {
            assert(edges@.take(i + 1).drop_last() =~= edges@.take(i as int));
            assert(edges@.take(i + 1).last() == edges@[i as int]);
        }
        if set.contains(&parent) {
            let ghost before = set@;
            let ghost lbefore = list@;
            if set.insert(pid) {
                list.push(pid);
                grew = true;
                proof {
                    assert forall|p: u32| set@.contains(p) <==> list@.contains(p) by {
                        if lbefore.contains(p) {
                            let k = choose|k: int| 0 <= k < lbefore.len() && lbefore[k] == p;
                            assert(list@[k] == p);
                        }
                        if list@.contains(p) && p != pid {
                            let k = choose|k: int| 0 <= k < list@.len() && list@[k] == p;
                            assert(lbefore[k] == p);
                        }
                        assert(list@[lbefore.len() as int] == pid);
                    }
                    assert(!start.contains(pid));
                    assert(set@.contains(pid));
                }
            } else {
                proof {
                    assert(set@ =~= before);
                }
            }
        }
        i += 1;
    }
    proof {
        assert(edges@.take(edges@.len() as int) =~= edges@);
        if !grew {
            assert(set@ =~= start);
        } else {
            let x = choose|x: u32| set@.contains(x) && !start.contains(x);
            assert(set@ != start);
        }
    }
    grew
}

/// `root_pid` and every descendant process of it in a process snapshot
/// given as `(parent, pid)` edges, with the same pids in a list. At most
/// `MAX_TREE_PASSES` passes are made: a parent value reused by another
/// process can make the relation cyclic.
pub(crate) fn descendant_list(root_pid: u32, edges: &Vec<(u32, u32)>) -> (r: (HashSet<u32>, Vec<u32>))
    ensures
        r.0@ == descendants(root_pid, edges@),
        forall|p: u32| r.0@.contains(p) <==> r.1@.contains(p),
{
    let mut set: HashSet<u32> = HashSet::new();
    let mut list: Vec<u32> = Vec::new();
    set.insert(root_pid);
    list.push(root_pid);
    proof {
        assert(set@ =~= set![root_pid]);
        assert forall|p: u32| set@.contains(p) <==> list@.contains(p) by {
            if p == root_pid {
                assert(list@[0] == root_pid);
            }
        }
    }
    if root_pid == 0 {
        return (set, list);
    }
    let ghost first = set@;
    let mut round: u32 = 0;
    while round < MAX_TREE_PASSES
        invariant
            round <= MAX_TREE_PASSES,
            root_pid != 0,
            first == set![root_pid],
            tree_passes(set@, edges@, (MAX_TREE_PASSES - round) as nat) == descendants(root_pid, edges@),
            forall|p: u32| set@.contains(p) <==> list@.contains(p),
        decreases MAX_TREE_PASSES - round,
    {
        let ghost before = set@;
        let grew = tree_pass_exec(&mut set, &mut list, edges);
        if !grew {
            proof {
                assert(tree_passes(before, edges@, (MAX_TREE_PASSES - round) as nat) == before);
            }
            set = set;
            return (set, list);
        }
        round += 1;
    }
    (set, list)
}

/// `root_pid` and all its descendant processes, from a process snapshot given
/// as `(parent, pid)` edges.
pub fn collect_descendant_pids_pub(root_pid: u32, edges: &Vec<(u32, u32)>) -> (r: HashSet<u32>)
    ensures
        r@ == descendants(root_pid, edges@),
{
    descendant_list(root_pid, edges).0
}

pub open spec fn in_prefix(s: Seq<u32>, n: int, x: u32) -> bool {
    exists|k: int| 0 <= k < n && #[trigger] s[k] == x
}

pub proof fn lemma_in_prefix_step(s: Seq<u32>, n: int, x: u32)
    requires
        0 <= n < s.len(),
    ensures
        in_prefix(s, n + 1, x) <==> (in_prefix(s, n, x) || s[n] == x),
{
    if in_prefix(s, n + 1, x) && s[n] != x {
        let k = choose|k: int| 0 <= k < n + 1 && #[trigger] s[k] == x;
        assert(0 <= k < n && s[k] == x);
    }
}

/// The processes to terminate for the roots `roots`: every root and its
/// descendants, pid 0 excepted, each once.
pub open spec fn kill_set(roots: Seq<u32>, edges: Seq<(u32, u32)>) -> Set<u32> {
    Set::new(|p: u32| p != 0 && exists|i: int| 0 <= i < roots.len() && descendants(roots[i], edges).contains(p))
}

/// The processes to terminate for the launched roots `roots`, each once.
pub fn kill_targets(roots: &Vec<u32>, edges: &Vec<(u32, u32)>) -> (r: Vec<u32>)
    ensures
        forall|p: u32| r@.contains(p) <==> kill_set(roots@, edges@).contains(p),
        r@.no_duplicates(),
{
    let mut seen: HashSet<u32> = HashSet::new();
    let mut out: Vec<u32> = Vec::new();
    let mut i: usize = 0;
    while i < roots.len()
        invariant
            i <= roots@.len(),
            forall|p: u32| out@.contains(p) <==> seen@.contains(p),
            forall|p: u32| #[trigger] seen@.contains(p) <==> (p != 0 && exists|j: int| 0 <= j < i && #[trigger] descendants(roots@[j], edges@).contains(p)),
            out@.no_duplicates(),
        decreases roots.len() - i,
    {
        let (tree, list) = descendant_list(roots[i], edges);
        let ghost seen_i = seen@;
        let mut k: usize = 0;
        while k < list.len()
            invariant
                i < roots@.len(),
                k <= list@.len(),
                tree@ == descendants(roots@[i as int], edges@),
                forall|p: u32| tree@.contains(p) <==> list@.contains(p),
                forall|p: u32| out@.contains(p) <==> seen@.contains(p),
                forall|p: u32| #[trigger] seen@.contains(p) <==> (seen_i.contains(p) || (p != 0 && in_prefix(list@, k as int, p))),
                out@.no_duplicates(),
            decreases list.len() - k,
        {
            let p = list[k];
            let ghost sb = seen@;
            let ghost ob = out@;
            if p != 0 && !seen.contains(&p) {
                seen.insert(p);
                out.push(p);
                proof {
                    assert forall|q: u32| out@.contains(q) <==> seen@.contains(q) by {
                        if ob.contains(q) {
                            let m = choose|m: int| 0 <= m < ob.len() && ob[m] == q;
                            assert(out@[m] == q);
                        }
                        if out@.contains(q) && q != p {
                            let m = choose|m: int| 0 <= m < out@.len() && out@[m] == q;
                            assert(ob[m] == q);
                        }
                        assert(out@[ob.len() as int] == p);
                    }
                }
            } else {
                proof {
                    assert(seen@ =~= sb);
                }
            }
            proof {
                assert forall|q: u32| #[trigger] seen@.contains(q) <==> (seen_i.contains(q) || (q != 0 && in_prefix(list@, k + 1, q))) by {
                    lemma_in_prefix_step(list@, k as int, q);
                    if seen@.contains(q) && !sb.contains(q) {
                        assert(q == p);
                    }
                    if sb.contains(q) {
                        assert(seen@.contains(q));
                    }
                }
            }
            k += 1;
        }
        proof {
            assert forall|q: u32| #[trigger] seen@.contains(q) <==> (q != 0 && exists|j: int| 0 <= j < i + 1 && #[trigger] descendants(roots@[j], edges@).contains(q)) by {
                if q != 0 && descendants(roots@[i as int], edges@).contains(q) {
                    assert(tree@.contains(q));
                    assert(list@.contains(q));
                    let m = choose|m: int| 0 <= m < list@.len() && list@[m] == q;
                    assert(in_prefix(list@, k as int, q));
                }
                if seen@.contains(q) && !seen_i.contains(q) {
                    let m = choose|m: int| 0 <= m < k && list@[m] == q;
                    assert(list@.contains(q));
                    assert(tree@.contains(q));
                }
                if q != 0 && exists|j: int| 0 <= j < i + 1 && #[trigger] descendants(roots@[j], edges@).contains(q) {
                    let j = choose|j: int| 0 <= j < i + 1 && #[trigger] descendants(roots@[j], edges@).contains(q);
                    if j < i {
                        assert(seen_i.contains(q));
                    }
                }
            }
        }
        i += 1;
    }
    proof {
        assert forall|p: u32| out@.contains(p) <==> kill_set(roots@, edges@).contains(p) by {}
    }
    out
}

/// The name of the desktop apps are launched onto.
pub const HIDDEN_DESKTOP_NAME: &'static str = "WindowModDesktop";

/// The UTF-16 code units of a character.
pub open spec fn utf16_of_char(c: char) -> Seq<u16> {
    let u = c as u32;
    if u < 0x10000 {
        seq![u as u16]
    } else {
        let v = u - 0x10000;
        seq![(0xD800 + v / 0x400) as u16, (0xDC00 + v % 0x400) as u16]
    }
}

/// The UTF-16 code units of a string.
pub open spec fn utf16_of(s: Seq<char>) -> Seq<u16>
    decreases s.len(),
{
    if s.len() == 0 {
        Seq::empty()
    } else {
        utf16_of(s.drop_last()) + utf16_of_char(s.last())
    }
}

/// The UTF-16 code units of `s` followed by a NUL, as Windows takes names.
pub fn wide_nul(s: &str) -> (r: Vec<u16>)
    ensures
        r@ == utf16_of(s@).push(0),
{
    let cs = crate::text::chars_of(s);
    let mut r: Vec<u16> = Vec::new();
    let mut i: usize = 0;
    while i < cs.len()
        invariant
            i <= cs@.len(),
            cs@ == s@,
            r@ == utf16_of(cs@.take(i as int)),
        decreases cs.len() - i,
    {
        let c = cs[i];
        proof {
            assert(cs@.take(i + 1).drop_last() =~= cs@.take(i as int));
            assert(cs@.take(i + 1).last() == c);
        }
        let u = c as u32;
        if u < 0x10000 {
            r.push(u as u16);
        } else {
            let v = u - 0x10000;
            r.push((0xD800 + v / 0x400) as u16);
            r.push((0xDC00 + v % 0x400) as u16);
        }
        assert(r@ =~= utf16_of(cs@.take(i + 1)));
        i += 1;
    }
    assert(cs@.take(cs@.len() as int) =~= cs@);
    r.push(0);
    r
}

/// The hidden desktop apps are launched onto: its NUL-terminated wide name
/// and its raw handle, both empty when it could not be created.
#[derive(Clone)]
pub struct HiddenDesktop {
    pub name_wide: Vec<u16>,
    pub raw: isize,
}

impl HiddenDesktop {
    /// The record of a desktop that could not be created.
    pub fn unavailable() -> (r: Self)
        ensures
            r.name_wide@.len() == 0,
            r.raw == 0,
    {
        HiddenDesktop { name_wide: Vec::new(), raw: 0 }
    }

    /// The record of the desktop `HIDDEN_DESKTOP_NAME` created as `raw`.
    pub fn created(raw: isize) -> (r: Self)
        ensures
            r.name_wide@ == utf16_of(HIDDEN_DESKTOP_NAME@).push(0),
            r.raw == raw,
    {
        HiddenDesktop { name_wide: wide_nul(HIDDEN_DESKTOP_NAME), raw }
    }

    /// The wide name to start processes on, or `None` without a desktop.
    pub fn hidden_desktop_name_wide(&self) -> (r: Option<&[u16]>)
        ensures
            match r {
                Some(n) => self.raw != 0 && self.name_wide@.len() > 0 && n@ == self.name_wide@,
                None => self.raw == 0 || self.name_wide@.len() == 0,
            },
    {
        if self.raw == 0 || self.name_wide.len() == 0 {
            None
        } else {
            Some(self.name_wide.as_slice())
        }
    }

    /// Whether the hidden desktop is available.
    pub fn ensure_hidden_desktop(&self) -> (r: bool)
        ensures
            r == (self.raw != 0 && self.name_wide@.len() > 0),
    {
        self.hidden_desktop_name_wide().is_some()
    }

    /// The desktop's handle, if there is one.
    pub fn hidden_hdesk(&self) -> (r: Option<isize>)
        ensures
            r == (if self.raw == 0 {
                None
            } else {
                Some(self.raw)
            }),
    {
        if self.raw == 0 {
            None
        } else {
            Some(self.raw)
        }
    }

    /// The desktop's raw handle, 0 without one.
    pub fn hidden_hdesk_raw(&self) -> (r: isize)
        ensures
            r == self.raw,
    {
        self.raw
    }
}

/// Whether `d` records the outcome `raw` of creating the hidden desktop:
/// the desktop's name and handle when `raw` is not 0, nothing when it is.
pub open spec fn records_outcome(d: HiddenDesktop, raw: isize) -> bool {
    &&& d.raw == raw
    &&& d.name_wide@ == (if raw == 0 {
        Seq::<u16>::empty()
    } else {
        utf16_of(HIDDEN_DESKTOP_NAME@).push(0)
    })
}

/// What one use of the process's hidden desktop does: the first records the
/// outcome `outcome` of creating it, later ones keep what the first recorded;
/// `r` is the recorded handle.
pub open spec fn settled_by(before: HiddenDesktopOnce, after: HiddenDesktopOnce, outcome: isize, r: isize) -> bool {
    &&& match before.desk {
        Some(_) => after.desk == before.desk,
        None => after.desk matches Some(d) && records_outcome(d, outcome),
    }
    &&& after.desk matches Some(d) && r == d.raw
}

/// The process's hidden desktop: created on first use, then kept for the
/// rest of the process.
pub struct HiddenDesktopOnce {
    pub desk: Option<HiddenDesktop>,
}

impl HiddenDesktopOnce {
    /// Before the first use: no desktop yet.
    pub fn new() -> (r: Self)
        ensures
            r.desk is None,
    {
        HiddenDesktopOnce { desk: None }
    }

    /// Whether the desktop is still to be created.
    pub fn needs_creation(&self) -> (r: bool)
        ensures
            r == self.desk is None,
    {
        self.desk.is_none()
    }

    /// One use of the desktop, with `outcome` the handle that creating it
    /// gave (0 when creation failed): the first use records it, later uses
    /// change nothing. Returns the recorded handle.
    pub fn settle(&mut self, outcome: isize) -> (r: isize)
        ensures
            settled_by(*old(self), *final(self), outcome, r),
    {
        match &self.desk {
            Some(d) => d.raw,
            None => {
                let d = if outcome == 0 {
                    let u = HiddenDesktop::unavailable();
                    assert(u.name_wide@ =~= Seq::<u16>::empty());
                    u
                } else {
                    HiddenDesktop::created(outcome)
                };
                let raw = d.raw;
                self.desk = Some(d);
                raw
            },
        }
    }

    /// The recorded desktop, once there is one.
    pub fn desktop(&self) -> (r: Option<&HiddenDesktop>)
        ensures
            match self.desk {
                Some(d) => r == Some(&d),
                None => r is None,
            },
    {
        match &self.desk {
            Some(d) => Some(d),
            None => None,
        }
    }
}

/// The hidden desktop is created at most once per process: the first use
/// records the outcome of creating it, and every later use gives the same
/// handle, whatever a new attempt would have given; a name to start processes
/// on is offered exactly when that handle is not 0, and it is
/// `HIDDEN_DESKTOP_NAME` in UTF-16 with a NUL.
pub proof fn law_hidden_desktop_made_once(
    s0: HiddenDesktopOnce,
    s1: HiddenDesktopOnce,
    s2: HiddenDesktopOnce,
    first: isize,
    later: isize,
    r1: isize,
    r2: isize,
)
    requires
        s0.desk is None,
        settled_by(s0, s1, first, r1),
        settled_by(s1, s2, later, r2),
    ensures
        r1 == first,
        r2 == r1,
        s2.desk == s1.desk,
        (s2.desk->0.raw != 0 && s2.desk->0.name_wide@.len() > 0) == (r2 != 0),
        r2 != 0 ==> s2.desk->0.name_wide@ == utf16_of(HIDDEN_DESKTOP_NAME@).push(0),
{
}

/// Whether `hwnd` is among the windows of the hidden desktop.
pub fn is_on_hidden_desktop(hwnd: isize, hidden: &Vec<isize>) -> (r: bool)
    ensures
        r == hidden@.contains(hwnd),
{
    let mut i: usize = 0;
    while i < hidden.len()
        invariant
            i <= hidden@.len(),
            forall|j: int| 0 <= j < i ==> hidden@[j] != hwnd,
        decreases hidden.len() - i,
    {
        if hidden[i] == hwnd {
            assert(hidden@[i as int] == hwnd);
            return true;
        }
        i += 1;
    }
    false
}

/// The processes to terminate to force-quit the app whose window belongs to
/// process `pid`: `pid` and its descendants, pid 0 excepted.
pub fn kill_tree(pid: u32, edges: &Vec<(u32, u32)>) -> (r: Vec<u32>)
    ensures
        forall|p: u32| r@.contains(p) <==> (p != 0 && (p == pid || descendants(pid, edges@).contains(p))),
        r@.no_duplicates(),
{
    let mut roots: Vec<u32> = Vec::new();
    roots.push(pid);
    let r = kill_targets(&roots, edges);
    proof {
        lemma_descendants_sound(pid, edges@);
        assert forall|p: u32| r@.contains(p) <==> (p != 0 && (p == pid || descendants(pid, edges@).contains(p))) by {
            if p != 0 && p == pid {
                assert(descendants(roots@[0], edges@).contains(p));
            }
            if p != 0 && descendants(pid, edges@).contains(p) {
                assert(descendants(roots@[0], edges@).contains(p));
            }
        }
    }
    r
}

} // verus!
