//! The entity graph: an append-only arena of entities with grid-derived
//! adjacency, and the per-tick transfer of resource along its edges.

use vstd::prelude::*;
use crate::resource::{Resource, MAX_AMOUNT, sat_add, sat_sub};

verus! {

/// A grid position `(x, y)`; `y` grows downward.
pub type Position = (isize, isize);

/// Whether `p` lies directly above or directly left of `q`, so that an
/// entity at `p` feeds one at `q`.
pub open spec fn feeds(p: Position, q: Position) -> bool {
    (p.0 == q.0 && p.1 + 1 == q.1) || (p.0 + 1 == q.0 && p.1 == q.1)
}

/// Selects the positions that feed `q`.
pub open spec fn feeding(q: Position) -> spec_fn(Position) -> bool {
    |p: Position| feeds(p, q)
}

/// Selects the positions that `q` feeds.
pub open spec fn fed_by(q: Position) -> spec_fn(Position) -> bool {
    |p: Position| feeds(q, p)
}

/// The indices `i < n` whose position satisfies `sel(ps[i])`, in increasing order.
pub open spec fn indices_where(ps: Seq<Position>, sel: spec_fn(Position) -> bool, n: nat) -> Seq<usize>
    decreases n,
{
    if n == 0 {
        Seq::empty()
    } else {
        let rest = indices_where(ps, sel, (n - 1) as nat);
        if sel(ps[n - 1]) {
            rest.push((n - 1) as usize)
        } else {
            rest
        }
    }
}

/// The abstract state of an `Entities` arena: one entry per entity in each sequence.
pub struct EntitiesView {
    pub wants: Seq<u8>,
    pub has: Seq<u8>,
    pub position: Seq<Position>,
    pub visible: Seq<bool>,
    pub upstream: Seq<Seq<usize>>,
    pub downstream: Seq<Seq<usize>>,
}

impl EntitiesView {
    /// The number of entities.
    pub open spec fn len(self) -> nat {
        self.position.len()
    }

    /// Every edge list refers to existing entities other than its owner.
    pub open spec fn edges_in_range(self) -> bool {
        &&& forall|a: int, k: int|
            0 <= a < self.len() && 0 <= k < self.upstream[a].len() ==> {
                &&& 0 <= #[trigger] self.upstream[a][k] < self.len()
                &&& self.upstream[a][k] != a
            }
        &&& forall|a: int, k: int|
            0 <= a < self.len() && 0 <= k < self.downstream[a].len() ==> {
                &&& 0 <= #[trigger] self.downstream[a][k] < self.len()
                &&& self.downstream[a][k] != a
            }
    }

    /// `b` is upstream of `a` exactly when `a` is downstream of `b`.
    pub open spec fn symmetric(self) -> bool {
        forall|a: int, b: int|
            0 <= a < self.len() && 0 <= b < self.len() ==> (
            #[trigger] self.upstream[a].contains(b as usize) <==> #[trigger] self.downstream[b].contains(a as usize))
    }

    /// The state after one tick: only the holdings change.
    pub open spec fn ticked(self) -> EntitiesView {
        EntitiesView { has: settle(self.wants, self.upstream, self.has, self.len()), ..self }
    }

    /// The sequences agree in length, every edge stays in range without
    /// self-loops, and adjacency is symmetric.
    pub open spec fn well_formed(self) -> bool {
        &&& self.len() <= usize::MAX
        &&& self.wants.len() == self.len()
        &&& self.has.len() == self.len()
        &&& self.visible.len() == self.len()
        &&& self.upstream.len() == self.len()
        &&& self.downstream.len() == self.len()
        &&& self.edges_in_range()
        &&& self.symmetric()
    }

    /// The state after appending an entity at `pos`: it takes as upstream
    /// the earlier entities that feed it and as downstream those it feeds,
    /// and each of those records the new index on the opposite side.
    pub open spec fn inserted(self, wants: u8, has: u8, pos: Position, visible: bool) -> EntitiesView {
        let n = self.len();
        EntitiesView {
            wants: self.wants.push(wants),
            has: self.has.push(has),
            position: self.position.push(pos),
            visible: self.visible.push(visible),
            upstream: Seq::new(n + 1, |a: int|
                if a == n {
                    indices_where(self.position, feeding(pos), n)
                } else if feeds(pos, self.position[a]) {
                    self.upstream[a].push(n as usize)
                } else {
                    self.upstream[a]
                }),
            downstream: Seq::new(n + 1, |a: int|
                if a == n {
                    indices_where(self.position, fed_by(pos), n)
                } else if feeds(self.position[a], pos) {
                    self.downstream[a].push(n as usize)
                } else {
                    self.downstream[a]
                }),
        }
    }
}

/// One transfer into sink `i`, which wants `w` per tick, from source `u`.
///
/// A full sink takes nothing. Otherwise the sink takes `w` when the source
/// holds that much, and else everything the source holds, leaving it empty.
pub open spec fn pull(has: Seq<u8>, w: u8, i: int, u: int) -> Seq<u8> {
    if has[i] == MAX_AMOUNT {
        has
    } else if has[u] >= w {
        let h = has.update(i, sat_add(has[i], w));
        h.update(u, sat_sub(h[u], w))
    } else {
        let h = has.update(i, sat_add(has[i], has[u]));
        h.update(u, 0)
    }
}

/// The holdings after sink `i` has pulled from the first `k` of its
/// upstream entities `ups`, in order.
pub open spec fn pull_from(has: Seq<u8>, w: u8, i: int, ups: Seq<usize>, k: nat) -> Seq<u8>
    decreases k,
{
    if k == 0 {
        has
    } else {
        pull(pull_from(has, w, i, ups, (k - 1) as nat), w, i, ups[k - 1] as int)
    }
}

/// The holdings after entities `0..n` have each pulled from all their
/// upstream entities, in increasing index order, each seeing the holdings
/// as the earlier pulls left them.
pub open spec fn settle(wants: Seq<u8>, upstream: Seq<Seq<usize>>, has: Seq<u8>, n: nat) -> Seq<u8>
    decreases n,
{
    if n == 0 {
        has
    } else {
        let i = n - 1;
        pull_from(settle(wants, upstream, has, (n - 1) as nat), wants[i], i, upstream[i], upstream[i].len())
    }
}

/// Which of four equal bands of magnitude an amount falls in: `0` for
/// `0..64`, `1` for `64..128`, `2` for `128..192`, `3` for `192..=255`.
pub open spec fn band_of(amount: u8) -> u8 {
    amount / 64
}

/// What the renderer draws for one visible entity.
#[derive(Debug, Clone, Copy, PartialEq, Eq)]
pub struct Glyph {
    pub position: Position,
    pub index: usize,
    pub band: u8,
}

/// The glyphs of the visible entities among the first `n`, in index order.
pub open spec fn glyphs(v: EntitiesView, n: nat) -> Seq<Glyph>
    decreases n,
{
    if n == 0 {
        Seq::empty()
    } else {
        let i = n - 1;
        let rest = glyphs(v, (n - 1) as nat);
        if v.visible[i] {
            rest.push(Glyph { position: v.position[i], index: i as usize, band: band_of(v.has[i]) })
        } else {
            rest
        }
    }
}

/// Every index that `indices_where` yields is below `n` and satisfies `sel`,
/// and every such index is yielded.
pub proof fn lemma_indices_where(ps: Seq<Position>, sel: spec_fn(Position) -> bool, n: nat)
    requires
        n <= ps.len(),
        n <= usize::MAX,
    ensures
        forall|k: int| 0 <= k < indices_where(ps, sel, n).len() ==> {
            &&& #[trigger] indices_where(ps, sel, n)[k] < n
            &&& sel(ps[indices_where(ps, sel, n)[k] as int])
        },
        forall|i: int| 0 <= i < n && sel(ps[i]) ==> #[trigger] indices_where(ps, sel, n).contains(i as usize),
    decreases n,
{
    if n > 0 {
        lemma_indices_where(ps, sel, (n - 1) as nat);
        let rest = indices_where(ps, sel, (n - 1) as nat);
        assert forall|i: int| 0 <= i < n && sel(ps[i]) implies #[trigger] indices_where(ps, sel, n).contains(i as usize) by {
            if i < n - 1 {
                assert(rest.contains(i as usize));
                let k = choose|k: int| 0 <= k < rest.len() && rest[k] == i as usize;
                assert(indices_where(ps, sel, n)[k] == i as usize);
            } else {
                assert(indices_where(ps, sel, n)[rest.len() as int] == i as usize);
            }
        }
    }
}

/// Appending `x` adds exactly `x` to what a sequence contains.
proof fn lemma_push_contains(s: Seq<usize>, x: usize, y: usize)
    ensures
        s.push(x).contains(y) <==> (s.contains(y) || y == x),
{
    if s.push(x).contains(y) && y != x {
        let k = choose|k: int| 0 <= k < s.push(x).len() && s.push(x)[k] == y;
        assert(s[k] == y);
    }
    if s.contains(y) {
        let k = choose|k: int| 0 <= k < s.len() && s[k] == y;
        assert(s.push(x)[k] == y);
    }
    assert(s.push(x)[s.len() as int] == x);
}

/// Appending an entity keeps the state well formed, and the new entity's
/// edges point only to earlier indices.
pub proof fn lemma_inserted_well_formed(v: EntitiesView, wants: u8, has: u8, pos: Position, visible: bool)
    requires
        v.well_formed(),
        v.len() < usize::MAX,
    ensures
        v.inserted(wants, has, pos, visible).well_formed(),
        forall|k: int| 0 <= k < v.inserted(wants, has, pos, visible).upstream[v.len() as int].len()
            ==> #[trigger] v.inserted(wants, has, pos, visible).upstream[v.len() as int][k] < v.len(),
        forall|k: int| 0 <= k < v.inserted(wants, has, pos, visible).downstream[v.len() as int].len()
            ==> #[trigger] v.inserted(wants, has, pos, visible).downstream[v.len() as int][k] < v.len(),
{
    let n = v.len();
    let w = v.inserted(wants, has, pos, visible);
    lemma_indices_where(v.position, feeding(pos), n);
    lemma_indices_where(v.position, fed_by(pos), n);
    let ups = indices_where(v.position, feeding(pos), n);
    let downs = indices_where(v.position, fed_by(pos), n);
    assert(w.upstream[n as int] == ups);
    assert(w.downstream[n as int] == downs);
    assert forall|a: int, k: int| 0 <= a < w.len() && 0 <= k < w.upstream[a].len() implies {
        &&& 0 <= #[trigger] w.upstream[a][k] < w.len()
        &&& w.upstream[a][k] != a
    } by {
        if a < n && k == v.upstream[a].len() {
            assert(w.upstream[a][k] == n);
        }
    }
    assert forall|a: int, k: int| 0 <= a < w.len() && 0 <= k < w.downstream[a].len() implies {
        &&& 0 <= #[trigger] w.downstream[a][k] < w.len()
        &&& w.downstream[a][k] != a
    } by {
        if a < n && k == v.downstream[a].len() {
            assert(w.downstream[a][k] == n);
        }
    }
    assert forall|a: int, b: int| 0 <= a < w.len() && 0 <= b < w.len() implies (
        #[trigger] w.upstream[a].contains(b as usize) <==> #[trigger] w.downstream[b].contains(a as usize)) by {
        if a < n && b < n {
            lemma_push_contains(v.upstream[a], n as usize, b as usize);
            lemma_push_contains(v.downstream[b], n as usize, a as usize);
        } else if a == n && b < n {
            if w.upstream[a].contains(b as usize) {
                let k = choose|k: int| 0 <= k < ups.len() && ups[k] == b as usize;
                assert(feeds(v.position[b], pos));
                assert(w.downstream[b][v.downstream[b].len() as int] == a as usize);
            }
            lemma_push_contains(v.downstream[b], n as usize, a as usize);
        } else if a < n && b == n {
            if w.downstream[b].contains(a as usize) {
                let k = choose|k: int| 0 <= k < downs.len() && downs[k] == a as usize;
                assert(feeds(pos, v.position[a]));
                assert(w.upstream[a][v.upstream[a].len() as int] == b as usize);
            }
            lemma_push_contains(v.upstream[a], n as usize, b as usize);
        } else {
            if w.upstream[a].contains(b as usize) {
                let k = choose|k: int| 0 <= k < ups.len() && ups[k] == b as usize;
            }
            if w.downstream[b].contains(a as usize) {
                let k = choose|k: int| 0 <= k < downs.len() && downs[k] == a as usize;
            }
        }
    }
}

/// The collection of entities, stored as parallel arrays indexed by the
/// order of insertion.
#[derive(Debug)]
pub struct Entities {
    wants: Vec<Resource>,
    has: Vec<Resource>,
    position: Vec<Position>,
    visible: Vec<bool>,
    upstream: Vec<Vec<usize>>,
    downstream: Vec<Vec<usize>>,
}

impl View for Entities {
    type V = EntitiesView;

    closed spec fn view(&self) -> EntitiesView {
        EntitiesView {
            wants: self.wants@.map_values(|r: Resource| r.0),
            has: self.has@.map_values(|r: Resource| r.0),
            position: self.position@,
            visible: self.visible@,
            upstream: self.upstream@.map_values(|v: Vec<usize>| v@),
            downstream: self.downstream@.map_values(|v: Vec<usize>| v@),
        }
    }
}

impl Entities {
    /// The arrays agree in length.
    pub closed spec fn lengths_agree(&self) -> bool {
        &&& self.wants.len() == self.position.len()
        &&& self.has.len() == self.position.len()
        &&& self.visible.len() == self.position.len()
        &&& self.upstream.len() == self.position.len()
        &&& self.downstream.len() == self.position.len()
    }

    /// The arena's invariant.
    pub open spec fn wf(&self) -> bool {
        &&& self.lengths_agree()
        &&& self@.well_formed()
    }

    /// An empty arena, with room for about a thousand entities.
    pub fn new() -> (r: Entities)
        ensures
            r.wf(),
            r@.len() == 0,
    {
        let r = Entities {
            wants: Vec::with_capacity(1024),
            has: Vec::with_capacity(1024),
            position: Vec::with_capacity(1024),
            visible: Vec::with_capacity(1024),
            upstream: Vec::with_capacity(1024),
            downstream: Vec::with_capacity(1024),
        };
        r
    }

    /// Appends an entity and links it to its grid neighbours; returns its index.
    ///
    /// Each existing entity directly above or left of `position` becomes
    /// upstream of the new one, each directly below or right of it becomes
    /// downstream, and the existing entity records the new index on the
    /// opposite side. The new entity's own edges point only to earlier indices.
    pub fn insert(&mut self, wants: Resource, has: Resource, position: Position, visible: bool) -> (r: usize)
        requires
            old(self).wf(),
            old(self)@.len() < usize::MAX,
        ensures
            final(self).wf(),
            r == old(self)@.len(),
            final(self)@ == old(self)@.inserted(wants.0, has.0, position, visible),
            forall|k: int| 0 <= k < final(self)@.upstream[r as int].len() ==> #[trigger] final(self)@.upstream[r as int][k] < r,
            forall|k: int| 0 <= k < final(self)@.downstream[r as int].len() ==> #[trigger] final(self)@.downstream[r as int][k] < r,
    {
        let len = self.position.len();
        let mut upstream: Vec<usize> = Vec::new();
        let mut downstream: Vec<usize> = Vec::new();
        let ghost before = self@;
        let mut i: usize = 0;
        while i < len
            invariant
                0 <= i <= len,
                len == before.len(),
                before == old(self)@,
                old(self).wf(),
                self.lengths_agree(),
                self.position.len() == len,
                self@.wants == before.wants,
                self@.has == before.has,
                self@.position == before.position,
                self@.visible == before.visible,
                upstream@ == indices_where(before.position, feeding(position), i as nat),
                downstream@ == indices_where(before.position, fed_by(position), i as nat),
                forall|a: int| 0 <= a < len ==> #[trigger] self@.upstream[a] == if a < i && feeds(position, before.position[a]) {
                    before.upstream[a].push(len)
                } else {
                    before.upstream[a]
                },
                forall|a: int| 0 <= a < len ==> #[trigger] self@.downstream[a] == if a < i && feeds(before.position[a], position) {
                    before.downstream[a].push(len)
                } else {
                    before.downstream[a]
                },
            decreases len - i,
        {
            let p = self.position[i];
            let (x, y) = position;
            let is_up = (p.0 == x && p.1 < y && p.1 + 1 == y) || (p.1 == y && p.0 < x && p.0 + 1 == x);
            let is_down = (p.0 == x && y < p.1 && y + 1 == p.1) || (p.1 == y && x < p.0 && x + 1 == p.0);
            assert(is_up == feeds(p, position));
            assert(is_down == feeds(position, p));
            let ghost ups_before = self@.upstream;
            let ghost downs_before = self@.downstream;
            if is_up {
                upstream.push(i);
                self.downstream[i].push(len);
            }
            if is_down {
                downstream.push(i);
                self.upstream[i].push(len);
            }
            assert(self@.downstream =~= if is_up { downs_before.update(i as int, downs_before[i as int].push(len)) } else { downs_before });
            assert(self@.upstream =~= if is_down { ups_before.update(i as int, ups_before[i as int].push(len)) } else { ups_before });
            proof {
                let ghost j = (i + 1) as nat;
                assert(feeding(position)(p) == feeds(p, position));
                assert(fed_by(position)(p) == feeds(position, p));
                assert(indices_where(before.position, feeding(position), j) == if feeds(p, position) {
                    indices_where(before.position, feeding(position), i as nat).push(i)
                } else {
                    indices_where(before.position, feeding(position), i as nat)
                });
                assert(indices_where(before.position, fed_by(position), j) == if feeds(position, p) {
                    indices_where(before.position, fed_by(position), i as nat).push(i)
                } else {
                    indices_where(before.position, fed_by(position), i as nat)
                });
            }
            i = i + 1;
        }
        let ghost mid = self@;
        self.wants.push(wants);
        self.has.push(has);
        self.position.push(position);
        self.visible.push(visible);
        self.upstream.push(upstream);
        self.downstream.push(downstream);
        let ghost after = before.inserted(wants.0, has.0, position, visible);
        assert forall|a: int| 0 <= a <= len implies #[trigger] self@.upstream[a] == after.upstream[a] by {
            if a < len {
                assert(self@.upstream[a] == mid.upstream[a]);
            }
        }
        assert forall|a: int| 0 <= a <= len implies #[trigger] self@.downstream[a] == after.downstream[a] by {
            if a < len {
                assert(self@.downstream[a] == mid.downstream[a]);
            }
        }
        assert(self@.wants =~= after.wants);
        assert(self@.has =~= after.has);
        assert(self@.upstream =~= after.upstream);
        assert(self@.downstream =~= after.downstream);
        assert(self@ == after);
        proof {
            lemma_inserted_well_formed(before, wants.0, has.0, position, visible);
        }
        len
    }

    /// Advances the holdings by one tick.
    ///
    /// Entities are visited in increasing index order, and each pulls from its
    /// upstream entities in the order their edges were recorded. Holdings change
    /// in place, so a later entity sees what earlier pulls of this tick left.
    pub fn update(&mut self)
        requires
            old(self).wf(),
        ensures
            final(self).wf(),
            final(self)@ == old(self)@.ticked(),
    {
        let len = self.position.len();
        let ghost before = self@;
        let mut i: usize = 0;
        while i < len
            invariant
                0 <= i <= len,
                len == before.len(),
                before == old(self)@,
                before.well_formed(),
                self.lengths_agree(),
                self.position.len() == len,
                self@ == (EntitiesView { has: settle(before.wants, before.upstream, before.has, i as nat), ..before }),
            decreases len - i,
        {
            let ghost start = self@.has;
            let mut k: usize = 0;
            while k < self.upstream[i].len()
                invariant
                    0 <= i < len,
                    len == before.len(),
                    before.well_formed(),
                    self.lengths_agree(),
                    self.position.len() == len,
                    0 <= k <= before.upstream[i as int].len(),
                    start == settle(before.wants, before.upstream, before.has, i as nat),
                    self@ == (EntitiesView { has: pull_from(start, before.wants[i as int], i as int, before.upstream[i as int], k as nat), ..before }),
                decreases before.upstream[i as int].len() - k,
            {
                let u = self.upstream[i][k];
                let ghost h0 = self@.has;
                if !self.has[i].is_full() {
                    let w = self.wants[i];
                    if self.has[u] >= w {
                        let hi = self.has[i].add(w);
                        self.has[i] = hi;
                        let hu = self.has[u].sub(w);
                        self.has[u] = hu;
                    } else {
                        let remainder = self.has[u];
                        let hi = self.has[i].add(remainder);
                        self.has[i] = hi;
                        self.has[u] = Resource(0);
                    }
                }
                assert(self@.has =~= pull(h0, before.wants[i as int], i as int, u as int));
                k = k + 1;
            }
            i = i + 1;
        }
    }

    /// What to draw: for each visible entity in index order, its position,
    /// its index and the band of its holding.
    pub fn display(&self) -> (r: Vec<Glyph>)
        requires
            self.wf(),
        ensures
            r@ == glyphs(self@, self@.len()),
    {
        let len = self.position.len();
        let mut output: Vec<Glyph> = Vec::with_capacity(len);
        let mut i: usize = 0;
        while i < len
            invariant
                0 <= i <= len,
                len == self@.len(),
                self.wf(),
                output@ == glyphs(self@, i as nat),
            decreases len - i,
        {
            if self.visible[i] {
                output.push(Glyph { position: self.position[i], index: i, band: self.has[i].0 / 64 });
            }
            i = i + 1;
        }
        output
    }

    /// What entity `i` wants per tick.
    pub fn wants(&self, i: usize) -> (r: Resource)
        requires
            self.wf(),
            i < self@.len(),
        ensures
            r.0 == self@.wants[i as int],
    {
        self.wants[i]
    }

    /// What entity `i` holds.
    pub fn has(&self, i: usize) -> (r: Resource)
        requires
            self.wf(),
            i < self@.len(),
        ensures
            r.0 == self@.has[i as int],
    {
        self.has[i]
    }

    /// Where entity `i` stands.
    pub fn position(&self, i: usize) -> (r: Position)
        requires
            self.wf(),
            i < self@.len(),
        ensures
            r == self@.position[i as int],
    {
        self.position[i]
    }

    /// Whether entity `i` is drawn.
    pub fn visible(&self, i: usize) -> (r: bool)
        requires
            self.wf(),
            i < self@.len(),
        ensures
            r == self@.visible[i as int],
    {
        self.visible[i]
    }

    /// The entities that entity `i` pulls from, in the order recorded.
    pub fn upstream(&self, i: usize) -> (r: &Vec<usize>)
        requires
            self.wf(),
            i < self@.len(),
        ensures
            r@ == self@.upstream[i as int],
    {
        &self.upstream[i]
    }

    /// The entities that pull from entity `i`, in the order recorded.
    pub fn downstream(&self, i: usize) -> (r: &Vec<usize>)
        requires
            self.wf(),
            i < self@.len(),
        ensures
            r@ == self@.downstream[i as int],
    {
        &self.downstream[i]
    }

    /// The number of entities.
    pub fn len(&self) -> (r: usize)
        requires
            self.wf(),
        ensures
            r == self@.len(),
    {
        self.position.len()
    }
}

} // verus!
