use vstd::prelude::*;
use std::collections::HashMap;

verus! {

/// How many of the rightmost (deduplicated) ASNs of a path a route keeps.
pub const PATH_SUFFIX_LEN: usize = 3;

/// An IPv4 or IPv6 address, as its big-endian integer.
#[derive(Clone, Copy, Debug, PartialEq, Eq, Structural)]
pub enum IpAddress {
    V4(u32),
    V6(u128),
}

/// A prefix: an address and a mask length.
#[derive(Clone, Copy, Debug, PartialEq, Eq, Structural)]
pub struct IpPrefix {
    pub addr: IpAddress,
    pub len: u8,
}

/// A prefix as carried in an UPDATE.
#[derive(Clone, Copy, Debug, PartialEq, Eq, Structural)]
pub enum Nlri {
    /// A plain prefix; its path id is 0.
    Ip(IpPrefix),
    /// An ADD-PATH prefix with its path id.
    IpWithPathId(IpPrefix, u32),
    /// An MPLS-labelled prefix, which the table ignores.
    IpMpls,
}

/// The attributes of one path that best-path selection and AS lookup use.
#[derive(Clone, Copy, Debug)]
pub struct Route {
    /// The last `PATH_SUFFIX_LEN` distinct ASNs, right-aligned, 0-padded.
    pub path_suffix: [u32; PATH_SUFFIX_LEN],
    /// The AS path length before prepends were dropped.
    pub path_len: u32,
    pub pref: u32,
    pub med: u32,
}

/// One path under a prefix.
#[derive(Clone, Copy, Debug)]
pub struct PathEntry {
    pub id: u32,
    pub route: Route,
}

/// The bit width of the address family of `ip`.
pub open spec fn width(ip: IpAddress) -> nat {
    match ip {
        IpAddress::V4(_) => 32,
        IpAddress::V6(_) => 128,
    }
}

/// The first `len` bits of `ip`, the rest cleared (`len <= width(ip)`).
pub open spec fn network(ip: IpAddress, len: nat) -> IpAddress {
    match ip {
        IpAddress::V4(a) => if len == 0 {
            IpAddress::V4(0)
        } else {
            IpAddress::V4((a >> ((32 - len) as u32)) << ((32 - len) as u32))
        },
        IpAddress::V6(a) => if len == 0 {
            IpAddress::V6(0)
        } else {
            IpAddress::V6((a >> ((128 - len) as u32)) << ((128 - len) as u32))
        },
    }
}

/// The table's key of a prefix.
pub open spec fn prefix_key(p: IpPrefix) -> (IpAddress, nat) {
    (p.addr, p.len as nat)
}

/// The abstract table: from (address, mask length) to the paths under it.
pub type RouteMap = Map<(IpAddress, nat), Seq<PathEntry>>;

pub open spec fn unique_ids(paths: Seq<PathEntry>) -> bool {
    forall|i: int, j: int|
        0 <= i < paths.len() && 0 <= j < paths.len() && #[trigger] paths[i].id == #[trigger] paths[j].id
            ==> i == j
}

/// Under every prefix of `m`, no two paths share an id.
pub open spec fn ids_unique(m: RouteMap) -> bool {
    forall|k: (IpAddress, nat)| #[trigger] m.contains_key(k) ==> unique_ids(m[k])
}

pub open spec fn has_id(paths: Seq<PathEntry>, id: u32) -> bool {
    exists|i: int| 0 <= i < paths.len() && paths[i].id == id
}

pub open spec fn index_of(paths: Seq<PathEntry>, id: u32) -> int {
    choose|i: int| 0 <= i < paths.len() && paths[i].id == id
}

/// `paths` with the path of id `id` set to `route` (appended if new).
pub open spec fn set_path(paths: Seq<PathEntry>, id: u32, route: Route) -> Seq<PathEntry> {
    if has_id(paths, id) {
        paths.update(index_of(paths, id), PathEntry { id, route })
    } else {
        paths.push(PathEntry { id, route })
    }
}

/// `paths` without the path of id `id`.
pub open spec fn remove_path(paths: Seq<PathEntry>, id: u32) -> Seq<PathEntry> {
    if has_id(paths, id) {
        paths.remove(index_of(paths, id))
    } else {
        paths
    }
}

proof fn lemma_set_path_twice(paths: Seq<PathEntry>, id: u32, r1: Route, r2: Route)
    requires
        unique_ids(paths),
    ensures
        set_path(set_path(paths, id, r1), id, r2) == set_path(paths, id, r2),
{
    let p1 = set_path(paths, id, r1);
    if has_id(paths, id) {
        let i = index_of(paths, id);
        assert(p1[i].id == id);
        assert(has_id(p1, id));
        let j = index_of(p1, id);
        if j != i {
            assert(paths[j].id == p1[j].id);
        }
        assert(set_path(p1, id, r2) =~= set_path(paths, id, r2));
    } else {
        let n = paths.len() as int;
        assert(p1[n].id == id);
        assert(has_id(p1, id));
        let j = index_of(p1, id);
        if j != n {
            assert(paths[j].id == id);
        }
        assert(set_path(p1, id, r2) =~= set_path(paths, id, r2));
    }
}

/// Announcing a prefix and path id again replaces the earlier route: two
/// announcements leave the table as the second one alone would.
pub proof fn lemma_announce_replaces(m: RouteMap, nlri: Nlri, r1: Route, r2: Route)
    requires
        ids_unique(m),
    ensures
        announced(announced(m, nlri, r1), nlri, r2) == announced(m, nlri, r2),
{
    match nlri_target(nlri) {
        Some((p, id)) => {
            let k = prefix_key(p);
            let old_paths = if m.contains_key(k) { m[k] } else { Seq::empty() };
            lemma_set_path_twice(old_paths, id, r1, r2);
            assert(announced(announced(m, nlri, r1), nlri, r2) =~= announced(m, nlri, r2));
        },
        None => {},
    }
}

/// The prefix and path id that `nlri` names, if the table keeps it: MPLS
/// prefixes and mask lengths wider than the family are not kept.
pub open spec fn nlri_target(nlri: Nlri) -> Option<(IpPrefix, u32)> {
    match nlri {
        Nlri::Ip(p) => if p.len <= width(p.addr) { Some((p, 0u32)) } else { None },
        Nlri::IpWithPathId(p, id) => if p.len <= width(p.addr) { Some((p, id)) } else { None },
        Nlri::IpMpls => None,
    }
}

pub open spec fn announced(m: RouteMap, nlri: Nlri, route: Route) -> RouteMap {
    match nlri_target(nlri) {
        Some((p, id)) => {
            let k = prefix_key(p);
            let old_paths = if m.contains_key(k) { m[k] } else { Seq::empty() };
            m.insert(k, set_path(old_paths, id, route))
        },
        None => m,
    }
}

pub open spec fn withdrawn(m: RouteMap, nlri: Nlri) -> RouteMap {
    match nlri_target(nlri) {
        Some((p, id)) => {
            let k = prefix_key(p);
            if m.contains_key(k) {
                m.insert(k, remove_path(m[k], id))
            } else {
                m
            }
        },
        None => m,
    }
}

/// The longest match of `ip` among mask lengths `0..=len`: its length and
/// its paths, or `(0, [])` when no such prefix holds a path.
pub open spec fn match_from(m: RouteMap, ip: IpAddress, len: nat) -> (nat, Seq<PathEntry>)
    decreases len,
{
    let k = (network(ip, len), len);
    if m.contains_key(k) && m[k].len() > 0 {
        (len, m[k])
    } else if len == 0 {
        (0, Seq::empty())
    } else {
        match_from(m, ip, (len - 1) as nat)
    }
}

pub open spec fn longest_match(m: RouteMap, ip: IpAddress) -> (nat, Seq<PathEntry>) {
    match_from(m, ip, width(ip))
}

pub open spec fn routes_of(paths: Seq<PathEntry>) -> Seq<Route> {
    paths.map_values(|e: PathEntry| e.route)
}

/// A prefix of `ip` of length `len` holds at least one path.
pub open spec fn covers(m: RouteMap, ip: IpAddress, len: nat) -> bool {
    let k = (network(ip, len), len);
    m.contains_key(k) && m[k].len() > 0
}

/// The longest match is the longest covering prefix that holds a path (a
/// `/0` covers every address): no longer one holds any, and when none holds
/// any the match is `(0, [])`.
pub proof fn lemma_longest_match(m: RouteMap, ip: IpAddress, len: nat)
    ensures
        match_from(m, ip, len).0 <= len,
        match_from(m, ip, len).1.len() == 0 <==> forall|l: nat| l <= len ==> !#[trigger] covers(m, ip, l),
        match_from(m, ip, len).1.len() == 0 ==> match_from(m, ip, len).0 == 0,
        match_from(m, ip, len).1.len() > 0 ==> {
            let l = match_from(m, ip, len).0;
            &&& covers(m, ip, l)
            &&& match_from(m, ip, len).1 == m[(network(ip, l), l)]
            &&& forall|l2: nat| l < l2 <= len ==> !#[trigger] covers(m, ip, l2)
        },
    decreases len,
{
    if len > 0 && !covers(m, ip, len) {
        let r = match_from(m, ip, (len - 1) as nat);
        lemma_longest_match(m, ip, (len - 1) as nat);
        if r.1.len() == 0 {
            assert forall|l: nat| l <= len implies !#[trigger] covers(m, ip, l) by {
                if l < len {
                    assert(l <= (len - 1) as nat);
                }
            }
        } else {
            assert(covers(m, ip, r.0));
        }
    } else if covers(m, ip, len) {
        assert(covers(m, ip, len));
    } else {
        assert forall|l: nat| l <= len implies !#[trigger] covers(m, ip, l) by {
            assert(l == 0);
        }
    }
}

/// When a `/24` and a `/16` covering an IPv4 address both hold paths and no
/// longer prefix does, the lookup returns exactly the `/24`'s paths.
pub proof fn lemma_longer_prefix_wins(m: RouteMap, a: u32)
    requires
        covers(m, IpAddress::V4(a), 24),
        covers(m, IpAddress::V4(a), 16),
        forall|l: nat| 24 < l <= 32 ==> !#[trigger] covers(m, IpAddress::V4(a), l),
    ensures
        longest_match(m, IpAddress::V4(a)) == (24nat, m[(network(IpAddress::V4(a), 24), 24nat)]),
{
    lemma_longest_match(m, IpAddress::V4(a), 32);
    let l = longest_match(m, IpAddress::V4(a)).0;
    if longest_match(m, IpAddress::V4(a)).1.len() == 0 {
        assert(covers(m, IpAddress::V4(a), 24));
    } else if l < 24 {
        assert(covers(m, IpAddress::V4(a), 24));
    } else if l > 24 {
        assert(!covers(m, IpAddress::V4(a), l));
    }
}

fn fits_family(p: &IpPrefix) -> (r: bool)
    ensures
        r == (p.len <= width(p.addr)),
{
    match p.addr {
        IpAddress::V4(_) => p.len <= 32,
        IpAddress::V6(_) => p.len <= 128,
    }
}

fn set_path_vec(paths: &mut Vec<PathEntry>, id: u32, route: Route)
    requires
        unique_ids(old(paths)@),
    ensures
        final(paths)@ == set_path(old(paths)@, id, route),
        unique_ids(final(paths)@),
{
    let ghost pre = paths@;
    let n = paths.len();
    let mut i: usize = 0;
    while i < n
        invariant
            paths@ == pre,
            old(paths)@ == pre,
            n == pre.len(),
            unique_ids(pre),
            i <= n,
            forall|j: int| 0 <= j < i ==> #[trigger] pre[j].id != id,
        decreases n - i,
    {
        if paths[i].id == id {
            assert(has_id(pre, id)) by {
                assert(pre[i as int].id == id);
            }
            assert(index_of(pre, id) == i as int);
            paths.set(i, PathEntry { id, route });
            assert forall|x: int, y: int|
                0 <= x < paths@.len() && 0 <= y < paths@.len() && #[trigger] paths@[x].id
                    == #[trigger] paths@[y].id implies x == y by {
                if x != i as int && y != i as int {
                    assert(pre[x].id == pre[y].id);
                } else if x != i as int {
                    assert(pre[x].id == pre[i as int].id);
                } else if y != i as int {
                    assert(pre[y].id == pre[i as int].id);
                }
            }
            return;
        }
        i += 1;
    }
    paths.push(PathEntry { id, route });
}

fn remove_path_vec(paths: &mut Vec<PathEntry>, id: u32)
    requires
        unique_ids(old(paths)@),
    ensures
        final(paths)@ == remove_path(old(paths)@, id),
        unique_ids(final(paths)@),
{
    let ghost pre = paths@;
    let n = paths.len();
    let mut i: usize = 0;
    while i < n
        invariant
            paths@ == pre,
            old(paths)@ == pre,
            n == pre.len(),
            unique_ids(pre),
            i <= n,
            forall|j: int| 0 <= j < i ==> #[trigger] pre[j].id != id,
        decreases n - i,
    {
        if paths[i].id == id {
            assert(has_id(pre, id)) by {
                assert(pre[i as int].id == id);
            }
            assert(index_of(pre, id) == i as int);
            paths.remove(i);
            assert forall|x: int, y: int|
                0 <= x < paths@.len() && 0 <= y < paths@.len() && #[trigger] paths@[x].id
                    == #[trigger] paths@[y].id implies x == y by {
                let px = if x < i { x } else { x + 1 };
                let py = if y < i { y } else { y + 1 };
                assert(pre[px].id == pre[py].id);
            }
            return;
        }
        i += 1;
    }
}

fn routes_vec(paths: &Vec<PathEntry>) -> (r: Vec<Route>)
    ensures
        r@ == routes_of(paths@),
{
    let mut r: Vec<Route> = Vec::new();
    let mut i: usize = 0;
    while i < paths.len()
        invariant
            i <= paths@.len(),
            r@ == routes_of(paths@.take(i as int)),
        decreases paths@.len() - i,
    {
        r.push(paths[i].route);
        i += 1;
        assert(r@ =~= routes_of(paths@.take(i as int)));
    }
    assert(paths@.take(i as int) =~= paths@);
    r
}

/// The IPv4 and IPv6 routing tables.
pub struct RoutingTable {
    v4_table: Vec<HashMap<u32, Vec<PathEntry>>>,
    v6_table: Vec<HashMap<u128, Vec<PathEntry>>>,
}

impl RoutingTable {
    spec fn holds(&self, k: (IpAddress, nat)) -> bool {
        match k.0 {
            IpAddress::V4(a) => k.1 <= 32 && self.v4_table@[k.1 as int]@.contains_key(a),
            IpAddress::V6(a) => k.1 <= 128 && self.v6_table@[k.1 as int]@.contains_key(a),
        }
    }

    spec fn paths_at(&self, k: (IpAddress, nat)) -> Seq<PathEntry> {
        match k.0 {
            IpAddress::V4(a) => self.v4_table@[k.1 as int]@[a]@,
            IpAddress::V6(a) => self.v6_table@[k.1 as int]@[a]@,
        }
    }
}

impl View for RoutingTable {
    type V = RouteMap;

    closed spec fn view(&self) -> RouteMap {
        Map::new(|k: (IpAddress, nat)| self.holds(k), |k: (IpAddress, nat)| self.paths_at(k))
    }
}

spec fn sum_lens_v4(tables: Seq<HashMap<u32, Vec<PathEntry>>>, n: int) -> nat
    decreases n,
{
    if n <= 0 {
        0
    } else {
        sum_lens_v4(tables, n - 1) + tables[n - 1]@.len()
    }
}

spec fn sum_lens_v6(tables: Seq<HashMap<u128, Vec<PathEntry>>>, n: int) -> nat
    decreases n,
{
    if n <= 0 {
        0
    } else {
        sum_lens_v6(tables, n - 1) + tables[n - 1]@.len()
    }
}

/// The IPv4 networks of mask length `l` that `m` holds a prefix for.
pub open spec fn v4_networks(m: RouteMap, l: nat) -> Set<u32> {
    Set::new(|a: u32| m.contains_key((IpAddress::V4(a), l)))
}

/// The IPv6 networks of mask length `l` that `m` holds a prefix for.
pub open spec fn v6_networks(m: RouteMap, l: nat) -> Set<u128> {
    Set::new(|a: u128| m.contains_key((IpAddress::V6(a), l)))
}

/// How many IPv4 prefixes of mask length below `n` `m` holds.
pub open spec fn v4_prefix_count(m: RouteMap, n: int) -> nat
    decreases n,
{
    if n <= 0 {
        0
    } else {
        v4_prefix_count(m, n - 1) + v4_networks(m, (n - 1) as nat).len()
    }
}

/// How many IPv6 prefixes of mask length below `n` `m` holds.
pub open spec fn v6_prefix_count(m: RouteMap, n: int) -> nat
    decreases n,
{
    if n <= 0 {
        0
    } else {
        v6_prefix_count(m, n - 1) + v6_networks(m, (n - 1) as nat).len()
    }
}

impl RoutingTable {
    proof fn lemma_v4_count(&self, n: int)
        requires
            self.wf(),
            0 <= n <= 33,
        ensures
            sum_lens_v4(self.v4_table@, n) == v4_prefix_count(self@, n),
        decreases n,
    {
        if n > 0 {
            self.lemma_v4_count(n - 1);
            let l = (n - 1) as nat;
            assert(v4_networks(self@, l) =~= self.v4_table@[n - 1]@.dom());
        }
    }

    proof fn lemma_v6_count(&self, n: int)
        requires
            self.wf(),
            0 <= n <= 129,
        ensures
            sum_lens_v6(self.v6_table@, n) == v6_prefix_count(self@, n),
        decreases n,
    {
        if n > 0 {
            self.lemma_v6_count(n - 1);
            let l = (n - 1) as nat;
            assert(v6_networks(self@, l) =~= self.v6_table@[n - 1]@.dom());
        }
    }

    pub closed spec fn wf(&self) -> bool {
        &&& self.v4_table@.len() == 33
        &&& self.v6_table@.len() == 129
        &&& ids_unique(self@)
    }

    /// A well-formed table holds at most one path per id under each prefix.
    pub proof fn lemma_wf_ids_unique(&self)
        requires
            self.wf(),
        ensures
            ids_unique(self@),
    {
    }

    /// Two empty tables.
    pub fn new() -> (r: Self)
        ensures
            r.wf(),
            r@ == RouteMap::empty(),
            ids_unique(r@),
    {
        let mut v4: Vec<HashMap<u32, Vec<PathEntry>>> = Vec::new();
        let mut i: usize = 0;
        while i < 33
            invariant
                i <= 33,
                v4@.len() == i,
                forall|j: int| 0 <= j < i ==> #[trigger] v4@[j]@ == Map::<u32, Vec<PathEntry>>::empty(),
            decreases 33 - i,
        {
            v4.push(HashMap::new());
            i += 1;
        }
        let mut v6: Vec<HashMap<u128, Vec<PathEntry>>> = Vec::new();
        let mut i: usize = 0;
        while i < 129
            invariant
                i <= 129,
                v6@.len() == i,
                forall|j: int| 0 <= j < i ==> #[trigger] v6@[j]@ == Map::<u128, Vec<PathEntry>>::empty(),
            decreases 129 - i,
        {
            v6.push(HashMap::new());
            i += 1;
        }
        let r = RoutingTable { v4_table: v4, v6_table: v6 };
        assert(r@ =~= RouteMap::empty());
        r
    }

    /// Drops every prefix of both families.
    pub fn clear(&mut self)
        requires
            old(self).wf(),
        ensures
            final(self).wf(),
            final(self)@ == RouteMap::empty(),
            ids_unique(final(self)@),
    {
        *self = RoutingTable::new();
    }

    fn set_route(&mut self, p: IpPrefix, id: u32, route: Route)
        requires
            old(self).wf(),
            p.len <= width(p.addr),
        ensures
            final(self).wf(),
            final(self)@ == announced(old(self)@, Nlri::IpWithPathId(p, id), route),
    {
        let ghost pre = self@;
        let ghost k = prefix_key(p);
        let l = p.len as usize;
        match p.addr {
            IpAddress::V4(a) => {
                let ghost old_tables = self.v4_table@;
                let mut m = self.v4_table.remove(l);
                let mut paths = match m.remove(&a) {
                    Some(v) => {
                        assert(pre.contains_key(k));
                        assert(unique_ids(pre[k]));
                        v
                    },
                    None => Vec::new(),
                };
                assert(pre.contains_key(k) ==> pre[k] == paths@);
                assert(unique_ids(paths@));
                set_path_vec(&mut paths, id, route);
                m.insert(a, paths);
                self.v4_table.insert(l, m);
                assert(self.v4_table@ =~= old_tables.update(l as int, m));
            },
            IpAddress::V6(a) => {
                let ghost old_tables = self.v6_table@;
                let mut m = self.v6_table.remove(l);
                let mut paths = match m.remove(&a) {
                    Some(v) => {
                        assert(pre.contains_key(k));
                        assert(unique_ids(pre[k]));
                        v
                    },
                    None => Vec::new(),
                };
                assert(pre.contains_key(k) ==> pre[k] == paths@);
                assert(unique_ids(paths@));
                set_path_vec(&mut paths, id, route);
                m.insert(a, paths);
                self.v6_table.insert(l, m);
                assert(self.v6_table@ =~= old_tables.update(l as int, m));
            },
        }
        assert(self@ =~= announced(pre, Nlri::IpWithPathId(p, id), route));
    }

    fn remove_route(&mut self, p: IpPrefix, id: u32)
        requires
            old(self).wf(),
            p.len <= width(p.addr),
        ensures
            final(self).wf(),
            final(self)@ == withdrawn(old(self)@, Nlri::IpWithPathId(p, id)),
    {
        let ghost pre = self@;
        let ghost k = prefix_key(p);
        let l = p.len as usize;
        match p.addr {
            IpAddress::V4(a) => {
                let ghost old_tables = self.v4_table@;
                let mut m = self.v4_table.remove(l);
                match m.remove(&a) {
                    Some(v) => {
                        let mut paths = v;
                        assert(pre.contains_key(k));
                        assert(unique_ids(pre[k]));
                        assert(pre[k] == paths@);
                        remove_path_vec(&mut paths, id);
                        m.insert(a, paths);
                    },
                    None => {},
                }
                self.v4_table.insert(l, m);
                assert(self.v4_table@ =~= old_tables.update(l as int, m));
            },
            IpAddress::V6(a) => {
                let ghost old_tables = self.v6_table@;
                let mut m = self.v6_table.remove(l);
                match m.remove(&a) {
                    Some(v) => {
                        let mut paths = v;
                        assert(pre.contains_key(k));
                        assert(unique_ids(pre[k]));
                        assert(pre[k] == paths@);
                        remove_path_vec(&mut paths, id);
                        m.insert(a, paths);
                    },
                    None => {},
                }
                self.v6_table.insert(l, m);
                assert(self.v6_table@ =~= old_tables.update(l as int, m));
            },
        }
        assert(self@ =~= withdrawn(pre, Nlri::IpWithPathId(p, id)));
    }

    /// Records `route` under the prefix and path id of `prefix` (id 0 for a
    /// plain prefix), replacing the path of the same id. MPLS prefixes and
    /// mask lengths wider than the family are ignored.
    pub fn announce(&mut self, prefix: Nlri, route: Route)
        requires
            old(self).wf(),
        ensures
            final(self).wf(),
            ids_unique(final(self)@),
            final(self)@ == announced(old(self)@, prefix, route),
    {
        match prefix {
            Nlri::Ip(p) => {
                if fits_family(&p) {
                    self.set_route(p, 0, route);
                }
            },
            Nlri::IpWithPathId(p, id) => {
                if fits_family(&p) {
                    self.set_route(p, id, route);
                }
            },
            Nlri::IpMpls => {},
        }
    }

    /// Removes the path of the prefix and path id of `prefix`; an absent
    /// prefix or path is a no-op. An emptied prefix stays, with no paths.
    pub fn withdraw(&mut self, prefix: Nlri)
        requires
            old(self).wf(),
        ensures
            final(self).wf(),
            ids_unique(final(self)@),
            final(self)@ == withdrawn(old(self)@, prefix),
    {
        match prefix {
            Nlri::Ip(p) => {
                if fits_family(&p) {
                    self.remove_route(p, 0);
                }
            },
            Nlri::IpWithPathId(p, id) => {
                if fits_family(&p) {
                    self.remove_route(p, id);
                }
            },
            Nlri::IpMpls => {},
        }
    }

    /// The number of IPv4 prefixes the table holds (emptied ones included;
    /// every mask length up to 32), saturating at `usize::MAX`.
    pub fn v4_len(&self) -> (r: usize)
        requires
            self.wf(),
        ensures
            r == if v4_prefix_count(self@, 33) > usize::MAX {
                usize::MAX as nat
            } else {
                v4_prefix_count(self@, 33)
            },
    {
        let mut total: usize = 0;
        let mut l: usize = 0;
        while l < 33
            invariant
                self.wf(),
                l <= 33,
                total == if sum_lens_v4(self.v4_table@, l as int) > usize::MAX {
                    usize::MAX as nat
                } else {
                    sum_lens_v4(self.v4_table@, l as int)
                },
            decreases 33 - l,
        {
            total = total.saturating_add(self.v4_table[l].len());
            l += 1;
        }
        proof {
            self.lemma_v4_count(33);
        }
        total
    }

    /// The number of IPv6 prefixes the table holds (emptied ones included;
    /// every mask length up to 128), saturating at `usize::MAX`.
    pub fn v6_len(&self) -> (r: usize)
        requires
            self.wf(),
        ensures
            r == if v6_prefix_count(self@, 129) > usize::MAX {
                usize::MAX as nat
            } else {
                v6_prefix_count(self@, 129)
            },
    {
        let mut total: usize = 0;
        let mut l: usize = 0;
        while l < 129
            invariant
                self.wf(),
                l <= 129,
                total == if sum_lens_v6(self.v6_table@, l as int) > usize::MAX {
                    usize::MAX as nat
                } else {
                    sum_lens_v6(self.v6_table@, l as int)
                },
            decreases 129 - l,
        {
            total = total.saturating_add(self.v6_table[l].len());
            l += 1;
        }
        proof {
            self.lemma_v6_count(129);
        }
        total
    }

    /// The longest prefix covering `ip` that holds a path (a `/0` covers
    /// every address), with all its routes; `(0, [])` when none does.
    pub fn get_route_attrs(&self, ip: IpAddress) -> (r: (u8, Vec<Route>))
        requires
            self.wf(),
        ensures
            r.0 as nat == longest_match(self@, ip).0,
            r.1@ == routes_of(longest_match(self@, ip).1),
    {
        match ip {
            IpAddress::V4(a) => {
                let mut len: u32 = 32;
                while len > 0
                    invariant
                        self.wf(),
                        len <= 32,
                        ip == IpAddress::V4(a),
                        longest_match(self@, ip) == match_from(self@, ip, len as nat),
                    decreases len,
                {
                    let shift = 32 - len;
                    let key = (a >> shift) << shift;
                    let ghost k = (network(ip, len as nat), len as nat);
                    match self.v4_table[len as usize].get(&key) {
                        Some(paths) => {
                            if paths.len() > 0 {
                                assert(self@.contains_key(k) && self@[k] == paths@);
                                return (len as u8, routes_vec(paths));
                            }
                        },
                        None => {},
                    }
                    len -= 1;
                }
                let ghost k = (network(ip, 0), 0nat);
                match self.v4_table[0].get(&0u32) {
                    Some(paths) => {
                        if paths.len() > 0 {
                            assert(self@.contains_key(k) && self@[k] == paths@);
                            return (0, routes_vec(paths));
                        }
                    },
                    None => {},
                }
                (0, Vec::new())
            },
            IpAddress::V6(a) => {
                let mut len: u32 = 128;
                while len > 0
                    invariant
                        self.wf(),
                        len <= 128,
                        ip == IpAddress::V6(a),
                        longest_match(self@, ip) == match_from(self@, ip, len as nat),
                    decreases len,
                {
                    let shift = 128 - len;
                    let key = (a >> shift) << shift;
                    let ghost k = (network(ip, len as nat), len as nat);
                    match self.v6_table[len as usize].get(&key) {
                        Some(paths) => {
                            if paths.len() > 0 {
                                assert(self@.contains_key(k) && self@[k] == paths@);
                                return (len as u8, routes_vec(paths));
                            }
                        },
                        None => {},
                    }
                    len -= 1;
                }
                let ghost k = (network(ip, 0), 0nat);
                match self.v6_table[0].get(&0u128) {
                    Some(paths) => {
                        if paths.len() > 0 {
                            assert(self@.contains_key(k) && self@[k] == paths@);
                            return (0, routes_vec(paths));
                        }
                    },
                    None => {},
                }
                (0, Vec::new())
            },
        }
    }
}

} // verus!
