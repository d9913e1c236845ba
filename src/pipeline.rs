//! The streaming update pipeline: a store of markets with a precomputed
//! relatedness adjacency and asset routes, updated one price tick at a time.

use vstd::prelude::*;
use crate::decimal::Dec;
use crate::text::lower_of;
use crate::shared_types::{
    Market, DependencyGraph, RebalancingOpportunity, CombinatorialOpportunity, is_probability,
};
use crate::arbitrage_engine::{
    markets_related, are_markets_related, pair_opportunities, summaries, ComboSummary,
    check_combinatorial_pair, check_rebalancing, prices_sum_fits, prices_fit, rebalancing_of,
    grid_opportunities, row_opportunities, pair_opportunity, shared_mask, last_with_id,
    graph_opportunities,
};

verus! {

/// Markets `a` and `b` of the catalog are related; the pair is judged with
/// the lower index first.
pub open spec fn edge(ms: Seq<Market>, a: int, b: int) -> bool {
    if a < b {
        markets_related(ms[a], ms[b])
    } else if b < a {
        markets_related(ms[b], ms[a])
    } else {
        false
    }
}

/// `adj` lists, for each market, exactly the markets related to it.
pub open spec fn adjacency_of(ms: Seq<Market>, adj: Seq<Vec<usize>>) -> bool {
    &&& adj.len() == ms.len()
    &&& forall|a: int, k: int| 0 <= a < adj.len() && 0 <= k < adj[a].len() ==> #[trigger] adj[a]@[k] < ms.len()
    &&& forall|a: int, b: int|
        0 <= a < ms.len() && 0 <= b < ms.len() ==> (#[trigger] adj[a]@.contains(b as usize) <==> edge(ms, a, b))
}

proof fn lemma_push_contains(s: Seq<usize>, x: usize)
    ensures
        forall|y: usize| #[trigger] s.push(x).contains(y) <==> (s.contains(y) || y == x),
{
    assert forall|y: usize| #[trigger] s.push(x).contains(y) <==> (s.contains(y) || y == x) by {
        if s.contains(y) {
            let i = choose|i: int| 0 <= i < s.len() && s[i] == y;
            assert(s.push(x)[i] == y);
        }
        if y == x {
            assert(s.push(x)[s.len() as int] == y);
        }
        if s.push(x).contains(y) && y != x {
            let i = choose|i: int| 0 <= i < s.push(x).len() && s.push(x)[i] == y;
            assert(s[i] == y);
        }
    }
}

/// The related pair `(a, b)`, `a < b`, has been visited once the outer scan
/// is at `i` and the inner one at `j`.
pub open spec fn visited(a: int, b: int, i: int, j: int) -> bool {
    a < i || (a == i && b < j)
}

pub open spec fn pair_views(v: Seq<(String, String)>) -> Seq<(Seq<char>, Seq<char>)> {
    v.map_values(|p: (String, String)| (p.0@, p.1@))
}

/// The id pairs `(i, q)` of related markets with `i < q < j`, in order.
pub open spec fn related_row(ms: Seq<Market>, i: int, j: int) -> Seq<(Seq<char>, Seq<char>)>
    decreases j - i,
{
    if j <= i + 1 {
        Seq::empty()
    } else if markets_related(ms[i], ms[j - 1]) {
        related_row(ms, i, j - 1).push((ms[i].id@, ms[j - 1].id@))
    } else {
        related_row(ms, i, j - 1)
    }
}

/// The id pairs of related markets whose first index is below `i`, in scan order.
pub open spec fn related_pairs(ms: Seq<Market>, i: int) -> Seq<(Seq<char>, Seq<char>)>
    decreases i,
{
    if i <= 0 {
        Seq::empty()
    } else {
        related_pairs(ms, i - 1) + related_row(ms, i - 1, ms.len() as int)
    }
}

/// Judges every pair of markets once, appends the ids of each related pair
/// `(i, j)`, `i < j`, to `graph` in scan order, and returns the symmetric
/// adjacency by market index.
pub fn build_adjacency(markets: &Vec<Market>, graph: &mut DependencyGraph) -> (r: Vec<Vec<usize>>)
    ensures
        adjacency_of(markets@, r@),
        pair_views(final(graph).related_markets@) == pair_views(old(graph).related_markets@) + related_pairs(
            markets@,
            markets.len() as int,
        ),
{
    let ghost base = pair_views(graph.related_markets@);
    let n = markets.len();
    let mut adj: Vec<Vec<usize>> = Vec::new();
    let mut k: usize = 0;
    while k < n
        invariant
            k <= n == markets.len(),
            adj.len() == k,
            forall|a: int| 0 <= a < k ==> (#[trigger] adj@[a])@.len() == 0,
        decreases n - k,
    {
        adj.push(Vec::new());
        k = k + 1;
    }
    let ghost ms = markets@;
    assert forall|a: int, b: int| 0 <= a < n && 0 <= b < n implies !(#[trigger] adj@[a]@.contains(b as usize)) by {
        assert(adj@[a]@.len() == 0);
    }
    let mut i: usize = 0;
    while i < n
        invariant
            i <= n == markets.len() == ms.len(),
            ms == markets@,
            adj.len() == n,
            forall|a: int, k: int| 0 <= a < n && 0 <= k < adj@[a].len() ==> #[trigger] adj@[a]@[k] < n,
            forall|a: int, b: int|
                0 <= a < n && 0 <= b < n ==> (#[trigger] adj@[a]@.contains(b as usize) <==> (edge(ms, a, b)
                    && (if a < b { a } else { b }) < i)),
            pair_views(graph.related_markets@) == base + related_pairs(ms, i as int),
        decreases n - i,
    {
        let mut j: usize = i + 1;
        assert(base + related_pairs(ms, i as int) + related_row(ms, i as int, j as int) =~= base + related_pairs(ms, i as int));
        while j < n
            invariant
                i < n == markets.len() == ms.len(),
                i + 1 <= j <= n,
                ms == markets@,
                adj.len() == n,
                forall|a: int, k: int| 0 <= a < n && 0 <= k < adj@[a].len() ==> #[trigger] adj@[a]@[k] < n,
                forall|a: int, b: int|
                    0 <= a < n && 0 <= b < n ==> (#[trigger] adj@[a]@.contains(b as usize) <==> (edge(ms, a, b)
                        && visited(if a < b { a } else { b }, if a < b { b } else { a }, i as int, j as int))),
                pair_views(graph.related_markets@) == base + related_pairs(ms, i as int) + related_row(ms, i as int, j as int),
            decreases n - j,
        {
            let ghost before_pairs = graph.related_markets@;
            if are_markets_related(&markets[i], &markets[j]) {
                graph.related_markets.push((markets[i].id.clone(), markets[j].id.clone()));
                assert(pair_views(graph.related_markets@) =~= pair_views(before_pairs).push((ms[i as int].id@, ms[j as int].id@)));
                let ghost before = adj@;
                proof {
                    lemma_push_contains(adj@[i as int]@, j);
                    lemma_push_contains(adj@[j as int]@, i);
                }
                adj[i].push(j);
                adj[j].push(i);
                assert forall|a: int, b: int|
                    0 <= a < n && 0 <= b < n implies (#[trigger] adj@[a]@.contains(b as usize) <==> (edge(ms, a, b)
                        && visited(if a < b { a } else { b }, if a < b { b } else { a }, i as int, j + 1))) by {
                    if a != i && a != j {
                        assert(adj@[a] == before[a]);
                    }
                }
            }
            j = j + 1;
        }
        assert(base + related_pairs(ms, i as int) + related_row(ms, i as int, n as int) =~= base
            + related_pairs(ms, i + 1));
        i = i + 1;
    }
    adj
}

/// The adjacency is symmetric: when `b` is listed for `a`, `a` is listed for `b`.
pub proof fn lemma_adjacency_symmetric(ms: Seq<Market>, adj: Seq<Vec<usize>>, a: int, b: int)
    requires
        adjacency_of(ms, adj),
        0 <= a < ms.len(),
        0 <= b < ms.len(),
        adj[a]@.contains(b as usize),
    ensures
        adj[b]@.contains(a as usize),
{
}

/// Where price updates for an asset go: condition `condition` of market `market`.
#[derive(Debug, Clone)]
pub struct AssetRoute {
    pub asset_id: String,
    pub market: usize,
    pub condition: usize,
}

/// Every route leads to a tradable condition that carries its asset id.
pub open spec fn routes_valid(ms: Seq<Market>, routes: Seq<AssetRoute>) -> bool {
    forall|k: int|
        0 <= k < routes.len() ==> {
            let r = #[trigger] routes[k];
            &&& r.market < ms.len()
            &&& r.condition < ms[r.market as int].conditions.len()
            &&& r.asset_id@ == ms[r.market as int].conditions@[r.condition as int].asset_id@
            &&& r.asset_id@.len() > 0
        }
}

/// Every tradable condition among the first `m` markets, and the first `c`
/// conditions of market `m`, has a route.
pub open spec fn routes_cover(ms: Seq<Market>, routes: Seq<AssetRoute>, m: int, c: int) -> bool {
    forall|p: int, q: int|
        0 <= p < ms.len() && 0 <= q < ms[p].conditions.len() && (p < m || (p == m && q < c))
            && ms[p].conditions@[q].asset_id@.len() > 0 ==> exists|k: int|
            0 <= k < routes.len() && #[trigger] routes[k].market == p && routes[k].condition == q
}

/// The last route for an asset id, as `insert` into a map would keep it.
pub open spec fn last_route(routes: Seq<AssetRoute>, asset: Seq<char>) -> Option<int>
    decreases routes.len(),
{
    if routes.len() == 0 {
        None
    } else if routes.last().asset_id@ == asset {
        Some(routes.len() - 1)
    } else {
        last_route(routes.drop_last(), asset)
    }
}

/// The shared market table with what was derived from it once.
pub struct MarketStore {
    pub markets: Vec<Market>,
    pub adjacency: Vec<Vec<usize>>,
    pub routes: Vec<AssetRoute>,
    pub graph: DependencyGraph,
}

/// What one tick produced.
pub struct TickOutcome {
    /// The tick named a tracked asset and a valid price, and was applied.
    pub applied: bool,
    pub rebalancing: Option<RebalancingOpportunity>,
    pub combinatorial: Vec<CombinatorialOpportunity>,
}

/// The combinatorial opportunities of market `m` against each listed neighbor, in order.
pub open spec fn neighbor_opportunities(ms: Seq<Market>, m: int, nbrs: Seq<usize>) -> Seq<ComboSummary>
    decreases nbrs.len(),
{
    if nbrs.len() == 0 {
        Seq::empty()
    } else {
        neighbor_opportunities(ms, m, nbrs.drop_last()) + pair_opportunities(
            ms[m],
            ms[nbrs.last() as int],
            lower_of(ms[m].title@),
            lower_of(ms[nbrs.last() as int].title@),
        )
    }
}

/// `new` is `old` with the price of condition `c` of market `m` set to `p`.
pub open spec fn price_updated(old: Seq<Market>, new: Seq<Market>, m: int, c: int, p: Dec) -> bool {
    &&& new.len() == old.len()
    &&& forall|q: int| 0 <= q < old.len() && q != m ==> #[trigger] new[q] == old[q]
    &&& new[m].id == old[m].id
    &&& new[m].title == old[m].title
    &&& new[m].end_date == old[m].end_date
    &&& new[m].neg_risk_market_id == old[m].neg_risk_market_id
    &&& new[m].tags == old[m].tags
    &&& new[m].conditions.len() == old[m].conditions.len()
    &&& forall|j: int| 0 <= j < old[m].conditions.len() && j != c ==> #[trigger] new[m].conditions@[j] == old[m].conditions@[j]
    &&& new[m].conditions@[c].name == old[m].conditions@[c].name
    &&& new[m].conditions@[c].outcome == old[m].conditions@[c].outcome
    &&& new[m].conditions@[c].asset_id == old[m].conditions@[c].asset_id
    &&& new[m].conditions@[c].price == p
}

impl MarketStore {
    pub open spec fn wf(self) -> bool {
        &&& forall|i: int| 0 <= i < self.markets.len() ==> (#[trigger] self.markets@[i]).wf()
        &&& self.adjacency.len() == self.markets.len()
        &&& forall|a: int, k: int|
            0 <= a < self.adjacency.len() && 0 <= k < self.adjacency@[a].len() ==> #[trigger] self.adjacency@[a]@[k]
                < self.markets.len()
        &&& routes_valid(self.markets@, self.routes@)
    }

    /// The condition that a tick for `asset` at price `p` updates, if any.
    pub open spec fn tick_target(self, asset: Seq<char>, p: Dec) -> Option<(int, int)> {
        if !is_probability(p) {
            None
        } else {
            match last_route(self.routes@, asset) {
                Some(k) => Some((self.routes@[k].market as int, self.routes@[k].condition as int)),
                None => None,
            }
        }
    }

    /// Builds the adjacency and the asset routes of a normalized catalog.
    pub fn new(markets: Vec<Market>) -> (r: MarketStore)
        requires
            forall|i: int| 0 <= i < markets.len() ==> (#[trigger] markets@[i]).wf(),
        ensures
            r.wf(),
            r.markets@ == markets@,
            adjacency_of(r.markets@, r.adjacency@),
            routes_cover(r.markets@, r.routes@, r.markets.len() as int, 0),
            pair_views(r.graph.related_markets@) == related_pairs(markets@, markets.len() as int),
    {
        let mut graph = DependencyGraph { related_markets: Vec::new(), implications: std::collections::HashMap::new() };
        assert(pair_views(graph.related_markets@) =~= Seq::empty());
        let adjacency = build_adjacency(&markets, &mut graph);
        let ghost ms = markets@;
        let mut routes: Vec<AssetRoute> = Vec::new();
        let mut m: usize = 0;
        while m < markets.len()
            invariant
                m <= markets.len(),
                ms == markets@,
                routes_valid(ms, routes@),
                routes_cover(ms, routes@, m as int, 0),
            decreases markets.len() - m,
        {
            let mut c: usize = 0;
            while c < markets[m].conditions.len()
                invariant
                    m < markets.len(),
                    c <= markets@[m as int].conditions.len(),
                    ms == markets@,
                    routes_valid(ms, routes@),
                    routes_cover(ms, routes@, m as int, c as int),
                decreases markets@[m as int].conditions.len() - c,
            {
                let cond = &markets[m].conditions[c];
                if !cond.asset_id.as_str().is_empty() {
                    let ghost before = routes@;
                    routes.push(AssetRoute { asset_id: cond.asset_id.clone(), market: m, condition: c });
                    assert forall|k: int| 0 <= k < before.len() implies #[trigger] routes@[k] == before[k] by {}
                    assert(routes@[before.len() as int].market == m);
                    assert forall|p: int, q: int|
                        0 <= p < ms.len() && 0 <= q < ms[p].conditions.len() && (p < m || (p == m && q < c + 1))
                            && ms[p].conditions@[q].asset_id@.len() > 0 implies exists|k: int|
                            0 <= k < routes@.len() && #[trigger] routes@[k].market == p && routes@[k].condition == q by {
                        if p == m && q == c {
                            assert(routes@[before.len() as int].market == p && routes@[before.len() as int].condition == q);
                        } else {
                            let k = choose|k: int| 0 <= k < before.len() && #[trigger] before[k].market == p && before[k].condition == q;
                            assert(routes@[k] == before[k]);
                        }
                    }
                }
                c = c + 1;
            }
            m = m + 1;
        }
        MarketStore { markets, adjacency, routes, graph }
    }

    fn find_route(&self, asset_id: &String) -> (r: Option<usize>)
        ensures
            r matches Some(k) ==> last_route(self.routes@, asset_id@) == Some(k as int) && k < self.routes.len(),
            r is None ==> last_route(self.routes@, asset_id@) is None,
    {
        let mut k = self.routes.len();
        assert(self.routes@.subrange(0, k as int) =~= self.routes@);
        while k > 0
            invariant
                k <= self.routes.len(),
                last_route(self.routes@, asset_id@) == last_route(self.routes@.subrange(0, k as int), asset_id@),
            decreases k,
        {
            assert(self.routes@.subrange(0, k as int).drop_last() =~= self.routes@.subrange(0, k - 1));
            if self.routes[k - 1].asset_id == *asset_id {
                return Some(k - 1);
            }
            k = k - 1;
        }
        None
    }

    /// Applies one price tick: a tick for an unknown asset, or with a price
    /// outside `[0, 1]`, changes nothing. Otherwise the price is written and
    /// only the updated market is re-examined: for rebalancing, and against
    /// each of its listed neighbors.
    pub fn apply_tick(&mut self, asset_id: &String, price: Dec) -> (r: TickOutcome)
        requires
            old(self).wf(),
        ensures
            final(self).wf(),
            final(self).adjacency == old(self).adjacency,
            final(self).routes == old(self).routes,
            r.applied == (old(self).tick_target(asset_id@, price) is Some),
            old(self).tick_target(asset_id@, price) is None ==> {
                &&& final(self).markets == old(self).markets
                &&& r.rebalancing is None
                &&& r.combinatorial@.len() == 0
            },
            old(self).tick_target(asset_id@, price) matches Some((m, c)) ==> {
                &&& price_updated(old(self).markets@, final(self).markets@, m, c, price)
                &&& prices_fit(final(self).markets@[m].conditions@) ==> {
                    &&& (r.rebalancing is Some <==> rebalancing_of(final(self).markets@[m]) is Some)
                    &&& r.rebalancing matches Some(o) ==> rebalancing_of(final(self).markets@[m]) == Some(o.summary())
                }
                &&& !prices_fit(final(self).markets@[m].conditions@) ==> r.rebalancing is None
                &&& summaries(r.combinatorial@) == neighbor_opportunities(final(self).markets@, m, final(self).adjacency@[m]@)
            },
    {
        let valid = price.is_valid() && Dec::zero().le(price) && price.le(Dec::one());
        proof {
            crate::decimal::lemma_pow10_28();
        }
        if !valid {
            return TickOutcome { applied: false, rebalancing: None, combinatorial: Vec::new() };
        }
        let k = match self.find_route(asset_id) {
            Some(k) => k,
            None => {
                return TickOutcome { applied: false, rebalancing: None, combinatorial: Vec::new() };
            },
        };
        let m = self.routes[k].market;
        let c = self.routes[k].condition;
        let ghost old_ms = self.markets@;
        assert(self.routes@[k as int].market < self.markets.len());
        self.markets[m].conditions[c].price = price;
        assert(price_updated(old_ms, self.markets@, m as int, c as int, price));
        assert forall|i: int| 0 <= i < self.markets.len() implies (#[trigger] self.markets@[i]).wf() by {
            if i == m {
                assert forall|j: int| 0 <= j < self.markets@[i].conditions.len() implies (#[trigger] self.markets@[i].conditions@[j]).wf() by {
                    if j != c {
                        assert(old_ms[i].conditions@[j].wf());
                    }
                }
            } else {
                assert(old_ms[i].wf());
            }
        }
        assert(routes_valid(self.markets@, self.routes@)) by {
            assert forall|q: int| 0 <= q < self.routes.len() implies {
                let r = #[trigger] self.routes@[q];
                &&& r.market < self.markets@.len()
                &&& r.condition < self.markets@[r.market as int].conditions.len()
                &&& r.asset_id@ == self.markets@[r.market as int].conditions@[r.condition as int].asset_id@
                &&& r.asset_id@.len() > 0
            } by {
                let r = self.routes@[q];
                assert(routes_valid(old_ms, self.routes@));
                if r.market as int == m as int && r.condition as int != c as int {
                    assert(self.markets@[m as int].conditions@[r.condition as int] == old_ms[m as int].conditions@[r.condition as int]);
                }
            }
        }
        let rebalancing = if prices_sum_fits(&self.markets[m]) {
            check_rebalancing(&self.markets[m])
        } else {
            None
        };
        let mut combinatorial: Vec<CombinatorialOpportunity> = Vec::new();
        let nn = self.adjacency[m].len();
        let mut q: usize = 0;
        while q < nn
            invariant
                self.wf(),
                m < self.markets.len(),
                nn == self.adjacency@[m as int].len(),
                q <= nn,
                summaries(combinatorial@) == neighbor_opportunities(
                    self.markets@,
                    m as int,
                    self.adjacency@[m as int]@.subrange(0, q as int),
                ),
            decreases nn - q,
        {
            let other = self.adjacency[m][q];
            assert(self.markets@[m as int].wf());
            assert(self.markets@[other as int].wf());
            let found = check_combinatorial_pair(&self.markets[m], &self.markets[other]);
            let ghost before = combinatorial@;
            let mut found = found;
            let ghost fv = found@;
            combinatorial.append(&mut found);
            assert(summaries(combinatorial@) =~= summaries(before) + summaries(fv));
            assert(self.adjacency@[m as int]@.subrange(0, q + 1).drop_last() =~= self.adjacency@[m as int]@.subrange(0, q as int));
            q = q + 1;
        }
        assert(self.adjacency@[m as int]@.subrange(0, nn as int) =~= self.adjacency@[m as int]@);
        TickOutcome { applied: true, rebalancing, combinatorial }
    }
}

proof fn lemma_row_ids(m1: Market, m2: Market, t1: Seq<char>, t2: Seq<char>, sh: Seq<bool>, c1: crate::shared_types::Condition, j: int)
    ensures
        forall|k: int|
            0 <= k < row_opportunities(m1, m2, t1, t2, sh, c1, j).len() ==> {
                let e = #[trigger] row_opportunities(m1, m2, t1, t2, sh, c1, j)[k];
                e.0 == m1.id@ && e.1 == m2.id@
            },
    decreases j,
{
    if j > 0 {
        lemma_row_ids(m1, m2, t1, t2, sh, c1, j - 1);
        let prev = row_opportunities(m1, m2, t1, t2, sh, c1, j - 1);
        let last = pair_opportunity(m1.id@, m2.id@, t1, c1, t2, m2.conditions@[j - 1], sh);
        assert forall|k: int| 0 <= k < (prev + last).len() implies {
            let e = #[trigger] (prev + last)[k];
            e.0 == m1.id@ && e.1 == m2.id@
        } by {
            if k < prev.len() {
                assert((prev + last)[k] == prev[k]);
            } else {
                assert((prev + last)[k] == last[k - prev.len()]);
            }
        }
    }
}

proof fn lemma_grid_ids(m1: Market, m2: Market, t1: Seq<char>, t2: Seq<char>, sh: Seq<bool>, i: int)
    ensures
        forall|k: int|
            0 <= k < grid_opportunities(m1, m2, t1, t2, sh, i).len() ==> {
                let e = #[trigger] grid_opportunities(m1, m2, t1, t2, sh, i)[k];
                e.0 == m1.id@ && e.1 == m2.id@
            },
    decreases i,
{
    if i > 0 {
        lemma_grid_ids(m1, m2, t1, t2, sh, i - 1);
        let prev = grid_opportunities(m1, m2, t1, t2, sh, i - 1);
        let row = row_opportunities(m1, m2, t1, t2, sh, m1.conditions@[i - 1], m2.conditions.len() as int);
        lemma_row_ids(m1, m2, t1, t2, sh, m1.conditions@[i - 1], m2.conditions.len() as int);
        assert forall|k: int| 0 <= k < (prev + row).len() implies {
            let e = #[trigger] (prev + row)[k];
            e.0 == m1.id@ && e.1 == m2.id@
        } by {
            if k < prev.len() {
                assert((prev + row)[k] == prev[k]);
            } else {
                assert((prev + row)[k] == row[k - prev.len()]);
            }
        }
    }
}

/// Every opportunity that the pair check reports names the two markets.
pub proof fn lemma_pair_ids(m1: Market, m2: Market, t1: Seq<char>, t2: Seq<char>)
    ensures
        forall|k: int|
            0 <= k < pair_opportunities(m1, m2, t1, t2).len() ==> {
                let e = #[trigger] pair_opportunities(m1, m2, t1, t2)[k];
                e.0 == m1.id@ && e.1 == m2.id@
            },
{
    lemma_grid_ids(m1, m2, t1, t2, shared_mask(t1, t2), m1.conditions.len() as int);
}

/// A tick re-examines only the updated market and its listed neighbors:
/// every combinatorial opportunity it reports names the updated market first
/// and one of its neighbors second, so a market without an edge to it gets
/// none.
pub proof fn lemma_tick_scope(ms: Seq<Market>, m: int, nbrs: Seq<usize>)
    requires
        0 <= m < ms.len(),
        forall|q: int| 0 <= q < nbrs.len() ==> #[trigger] nbrs[q] < ms.len(),
    ensures
        forall|k: int|
            0 <= k < neighbor_opportunities(ms, m, nbrs).len() ==> {
                let e = #[trigger] neighbor_opportunities(ms, m, nbrs)[k];
                &&& e.0 == ms[m].id@
                &&& exists|q: int| 0 <= q < nbrs.len() && e.1 == #[trigger] ms[nbrs[q] as int].id@
            },
    decreases nbrs.len(),
{
    if nbrs.len() > 0 {
        let front = nbrs.drop_last();
        assert forall|q: int| 0 <= q < front.len() implies #[trigger] front[q] < ms.len() by {
            assert(front[q] == nbrs[q]);
        }
        lemma_tick_scope(ms, m, front);
        let prev = neighbor_opportunities(ms, m, front);
        let o = nbrs.last() as int;
        let last = pair_opportunities(ms[m], ms[o], lower_of(ms[m].title@), lower_of(ms[o].title@));
        lemma_pair_ids(ms[m], ms[o], lower_of(ms[m].title@), lower_of(ms[o].title@));
        assert forall|k: int| 0 <= k < (prev + last).len() implies {
            let e = #[trigger] (prev + last)[k];
            &&& e.0 == ms[m].id@
            &&& exists|q: int| 0 <= q < nbrs.len() && e.1 == #[trigger] ms[nbrs[q] as int].id@
        } by {
            if k < prev.len() {
                assert((prev + last)[k] == prev[k]);
                let e = prev[k];
                let q = choose|q: int| 0 <= q < front.len() && e.1 == #[trigger] ms[front[q] as int].id@;
                assert(front[q] == nbrs[q]);
            } else {
                assert((prev + last)[k] == last[k - prev.len()]);
                assert(nbrs[nbrs.len() - 1] == nbrs.last());
            }
        }
    }
}

proof fn lemma_last_with_id(ms: Seq<Market>, id: Seq<char>)
    ensures
        last_with_id(ms, id) matches Some(a) ==> 0 <= a < ms.len() && ms[a].id@ == id,
    decreases ms.len(),
{
    if ms.len() > 0 {
        lemma_last_with_id(ms.drop_last(), id);
        if let Some(a) = last_with_id(ms.drop_last(), id) {
            assert(ms.drop_last()[a] == ms[a]);
        }
    }
}

/// Combinatorial opportunities come only from listed pairs: each one names
/// the two markets of some pair of the graph, so a market in no pair, or an
/// empty graph, yields none.
pub proof fn lemma_graph_scope(ms: Seq<Market>, pairs: Seq<(String, String)>, k: int)
    requires
        0 <= k <= pairs.len(),
    ensures
        forall|x: int|
            0 <= x < graph_opportunities(ms, pairs, k).len() ==> {
                let e = #[trigger] graph_opportunities(ms, pairs, k)[x];
                exists|p: int| 0 <= p < k && e.0 == (#[trigger] pairs[p]).0@ && e.1 == pairs[p].1@
            },
    decreases k,
{
    if k > 0 {
        lemma_graph_scope(ms, pairs, k - 1);
        let prev = graph_opportunities(ms, pairs, k - 1);
        lemma_last_with_id(ms, pairs[k - 1].0@);
        lemma_last_with_id(ms, pairs[k - 1].1@);
        match (last_with_id(ms, pairs[k - 1].0@), last_with_id(ms, pairs[k - 1].1@)) {
            (Some(a), Some(b)) => {
                let last = pair_opportunities(ms[a], ms[b], lower_of(ms[a].title@), lower_of(ms[b].title@));
                lemma_pair_ids(ms[a], ms[b], lower_of(ms[a].title@), lower_of(ms[b].title@));
                assert forall|x: int| 0 <= x < (prev + last).len() implies {
                    let e = #[trigger] (prev + last)[x];
                    exists|p: int| 0 <= p < k && e.0 == (#[trigger] pairs[p]).0@ && e.1 == pairs[p].1@
                } by {
                    if x < prev.len() {
                        assert((prev + last)[x] == prev[x]);
                        let e = prev[x];
                        let p = choose|p: int| 0 <= p < k - 1 && e.0 == (#[trigger] pairs[p]).0@ && e.1 == pairs[p].1@;
                        assert(0 <= p < k);
                    } else {
                        assert((prev + last)[x] == last[x - prev.len()]);
                        let p = k - 1;
                        assert((prev + last)[x].0 == pairs[p].0@);
                    }
                }
            },
            _ => {},
        }
    }
}

} // verus!
