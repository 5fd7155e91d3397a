use vstd::prelude::*;
use crate::routing::{
    IpAddress, Nlri, Route, RouteMap, RoutingTable, PATH_SUFFIX_LEN, announced, longest_match,
    routes_of, withdrawn,
};

verus! {

/// One segment of an AS path.
pub enum AsSegment {
    AsSequence(Vec<u32>),
    AsSet(Vec<u32>),
}

/// An AS path: its segments in order.
pub struct AsPath {
    pub segments: Vec<AsSegment>,
}

/// The path attributes of an UPDATE that routes are built from.
pub enum PathAttribute {
    As4Path(AsPath),
    AsPath(AsPath),
    LocalPref(u32),
    MultiExitDisc(u32),
    Other,
}

/// The ASNs of the `AS_SEQUENCE` segments of `segs`, in order; `AS_SET`s are skipped.
pub open spec fn sequence_asns(segs: Seq<AsSegment>) -> Seq<u32>
    decreases segs.len(),
{
    if segs.len() == 0 {
        Seq::empty()
    } else {
        let rest = sequence_asns(segs.drop_last());
        match segs.last() {
            AsSegment::AsSequence(v) => rest + v@,
            AsSegment::AsSet(_) => rest,
        }
    }
}

/// The segments of the last `AS4_PATH` attribute.
pub open spec fn last_as4_path(attrs: Seq<PathAttribute>) -> Option<Seq<AsSegment>>
    decreases attrs.len(),
{
    if attrs.len() == 0 {
        None
    } else {
        match attrs.last() {
            PathAttribute::As4Path(p) => Some(p.segments@),
            _ => last_as4_path(attrs.drop_last()),
        }
    }
}

/// The segments of the last `AS_PATH` attribute.
pub open spec fn last_as_path(attrs: Seq<PathAttribute>) -> Option<Seq<AsSegment>>
    decreases attrs.len(),
{
    if attrs.len() == 0 {
        None
    } else {
        match attrs.last() {
            PathAttribute::AsPath(p) => Some(p.segments@),
            _ => last_as_path(attrs.drop_last()),
        }
    }
}

/// The last `LOCAL_PREF`, 100 if there is none.
pub open spec fn local_pref(attrs: Seq<PathAttribute>) -> u32
    decreases attrs.len(),
{
    if attrs.len() == 0 {
        100
    } else {
        match attrs.last() {
            PathAttribute::LocalPref(p) => p,
            _ => local_pref(attrs.drop_last()),
        }
    }
}

/// The last `MULTI_EXIT_DISC`, 0 if there is none.
pub open spec fn med(attrs: Seq<PathAttribute>) -> u32
    decreases attrs.len(),
{
    if attrs.len() == 0 {
        0
    } else {
        match attrs.last() {
            PathAttribute::MultiExitDisc(m) => m,
            _ => med(attrs.drop_last()),
        }
    }
}

/// `s` with every run of equal adjacent ASNs reduced to one.
pub open spec fn dedup_adjacent(s: Seq<u32>) -> Seq<u32>
    decreases s.len(),
{
    if s.len() <= 1 {
        s
    } else {
        let d = dedup_adjacent(s.drop_last());
        if s.last() == s[s.len() - 2] {
            d
        } else {
            d.push(s.last())
        }
    }
}

/// The last `PATH_SUFFIX_LEN` ASNs of `d`, right-aligned and padded with 0.
pub open spec fn path_suffix(d: Seq<u32>) -> Seq<u32> {
    Seq::new(
        PATH_SUFFIX_LEN as nat,
        |k: int| if k + d.len() >= PATH_SUFFIX_LEN { d[d.len() - PATH_SUFFIX_LEN + k] } else { 0 },
    )
}

/// The AS path a route is built from: the last `AS4_PATH` if any, else the
/// last `AS_PATH`.
pub open spec fn chosen_path(attrs: Seq<PathAttribute>) -> Option<Seq<AsSegment>> {
    if last_as4_path(attrs) is Some {
        last_as4_path(attrs)
    } else {
        last_as_path(attrs)
    }
}

/// `r` is the route that the attributes `attrs` describe: none without an
/// AS path; otherwise its length counts every ASN of the sequences
/// (prepends included) and its suffix is taken after prepends are dropped.
pub open spec fn describes(attrs: Seq<PathAttribute>, r: Option<Route>) -> bool {
    match chosen_path(attrs) {
        Some(segs) => {
            let path = sequence_asns(segs);
            &&& r is Some
            &&& r->0.path_suffix@ == path_suffix(dedup_adjacent(path))
            &&& r->0.path_len == path.len() as u32
            &&& r->0.pref == local_pref(attrs)
            &&& r->0.med == med(attrs)
        },
        None => r is None,
    }
}

proof fn lemma_dedup_last(s: Seq<u32>)
    requires
        s.len() > 0,
    ensures
        dedup_adjacent(s).len() > 0,
        dedup_adjacent(s).last() == s.last(),
    decreases s.len(),
{
    if s.len() > 1 {
        lemma_dedup_last(s.drop_last());
    }
}

fn dedup_vec(s: &Vec<u32>) -> (r: Vec<u32>)
    ensures
        r@ == dedup_adjacent(s@),
{
    let mut r: Vec<u32> = Vec::new();
    let mut i: usize = 0;
    while i < s.len()
        invariant
            i <= s@.len(),
            r@ == dedup_adjacent(s@.take(i as int)),
        decreases s@.len() - i,
    {
        let ghost t = s@.take(i as int + 1);
        assert(t.drop_last() =~= s@.take(i as int));
        if i == 0 {
            r.push(s[i]);
            assert(r@ =~= dedup_adjacent(t));
        } else {
            proof {
                lemma_dedup_last(s@.take(i as int));
            }
            assert(t[t.len() - 2] == s@[i - 1]);
            if r[r.len() - 1] != s[i] {
                r.push(s[i]);
            }
        }
        i += 1;
    }
    assert(s@.take(i as int) =~= s@);
    r
}

fn suffix_array(d: &Vec<u32>) -> (r: [u32; PATH_SUFFIX_LEN])
    ensures
        r@ == path_suffix(d@),
{
    let n = d.len();
    let s0 = if n >= 3 { d[n - 3] } else { 0 };
    let s1 = if n >= 2 { d[n - 2] } else { 0 };
    let s2 = if n >= 1 { d[n - 1] } else { 0 };
    let r = [s0, s1, s2];
    assert(r@ =~= path_suffix(d@));
    r
}

fn sequence_vec(segs: &Vec<AsSegment>) -> (r: Vec<u32>)
    ensures
        r@ == sequence_asns(segs@),
{
    let mut r: Vec<u32> = Vec::new();
    let mut i: usize = 0;
    while i < segs.len()
        invariant
            i <= segs@.len(),
            r@ == sequence_asns(segs@.take(i as int)),
        decreases segs@.len() - i,
    {
        let ghost t = segs@.take(i as int + 1);
        assert(t.drop_last() =~= segs@.take(i as int));
        match &segs[i] {
            AsSegment::AsSequence(v) => {
                let ghost before = r@;
                let mut j: usize = 0;
                while j < v.len()
                    invariant
                        j <= v@.len(),
                        r@ == before + v@.take(j as int),
                    decreases v@.len() - j,
                {
                    r.push(v[j]);
                    j += 1;
                    assert(r@ =~= before + v@.take(j as int));
                }
                assert(v@.take(j as int) =~= v@);
            },
            AsSegment::AsSet(_) => {},
        }
        i += 1;
    }
    assert(segs@.take(i as int) =~= segs@);
    r
}

/// The route that the attributes `attrs` describe, if they carry an AS path.
pub fn map_attrs(attrs: Vec<PathAttribute>) -> (r: Option<Route>)
    ensures
        describes(attrs@, r),
{
    let mut as4_path: Option<&AsPath> = None;
    let mut as_path: Option<&AsPath> = None;
    let mut pref: u32 = 100;
    let mut multi_exit: u32 = 0;
    let mut i: usize = 0;
    while i < attrs.len()
        invariant
            i <= attrs@.len(),
            last_as4_path(attrs@.take(i as int)) == match as4_path {
                Some(p) => Some(p.segments@),
                None => None,
            },
            last_as_path(attrs@.take(i as int)) == match as_path {
                Some(p) => Some(p.segments@),
                None => None,
            },
            local_pref(attrs@.take(i as int)) == pref,
            med(attrs@.take(i as int)) == multi_exit,
        decreases attrs@.len() - i,
    {
        let ghost t = attrs@.take(i as int + 1);
        assert(t.drop_last() =~= attrs@.take(i as int));
        match &attrs[i] {
            PathAttribute::As4Path(p) => as4_path = Some(p),
            PathAttribute::AsPath(p) => as_path = Some(p),
            PathAttribute::LocalPref(p) => pref = *p,
            PathAttribute::MultiExitDisc(m) => multi_exit = *m,
            PathAttribute::Other => {},
        }
        i += 1;
    }
    assert(attrs@.take(i as int) =~= attrs@);
    let chosen = match as4_path {
        Some(p) => Some(p),
        None => as_path,
    };
    match chosen {
        Some(path) => {
            let asns = sequence_vec(&path.segments);
            let deduped = dedup_vec(&asns);
            Some(
                Route {
                    path_suffix: suffix_array(&deduped),
                    path_len: asns.len() as u32,
                    pref,
                    med: multi_exit,
                },
            )
        },
        None => None,
    }
}

/// `a` ranks at least as high as `b`: higher `pref`, then shorter
/// `path_len`, then lower `med`.
pub open spec fn at_least_as_good(a: Route, b: Route) -> bool {
    ||| a.pref > b.pref
    ||| a.pref == b.pref && a.path_len < b.path_len
    ||| a.pref == b.pref && a.path_len == b.path_len && a.med <= b.med
}

/// The index of the first best route among the first `n`.
pub open spec fn best_index_upto(routes: Seq<Route>, n: int) -> int
    decreases n,
{
    if n <= 1 {
        0
    } else {
        let b = best_index_upto(routes, n - 1);
        if !at_least_as_good(routes[b], routes[n - 1]) {
            n - 1
        } else {
            b
        }
    }
}

/// The primary path: the first of the best-ranked routes.
pub open spec fn best_index(routes: Seq<Route>) -> int {
    best_index_upto(routes, routes.len() as int)
}

/// For any non-empty candidate set, the primary path has the maximum
/// `pref`, then among those the minimum `path_len`, then the minimum `med`.
pub proof fn lemma_primary_is_best(routes: Seq<Route>)
    requires
        routes.len() > 0,
    ensures
        0 <= best_index(routes) < routes.len(),
        forall|j: int| 0 <= j < routes.len() ==> at_least_as_good(routes[best_index(routes)], #[trigger] routes[j]),
{
    lemma_best_upto(routes, routes.len() as int);
}

proof fn lemma_best_upto(routes: Seq<Route>, n: int)
    requires
        0 < n <= routes.len(),
    ensures
        0 <= best_index_upto(routes, n) < n,
        forall|j: int| 0 <= j < n ==> at_least_as_good(routes[best_index_upto(routes, n)], #[trigger] routes[j]),
    decreases n,
{
    if n > 1 {
        lemma_best_upto(routes, n - 1);
    }
}

/// `asn` is a real ASN that every other path's suffix holds.
pub open spec fn shared_by(asn: u32, others: Seq<Route>) -> bool {
    &&& asn != 0
    &&& forall|j: int| 0 <= j < others.len() ==> (#[trigger] others[j]).path_suffix@.contains(asn)
}

/// The ASN chosen from the primary path `p`: the rightmost one of its suffix
/// that every other path shares, else its rightmost nonzero one, else 0.
pub open spec fn pick_asn(p: Route, others: Seq<Route>) -> u32 {
    let s = p.path_suffix@;
    if shared_by(s[2], others) {
        s[2]
    } else if shared_by(s[1], others) {
        s[1]
    } else if shared_by(s[0], others) {
        s[0]
    } else if s[2] != 0 {
        s[2]
    } else if s[1] != 0 {
        s[1]
    } else {
        s[0]
    }
}

/// The ASN for a set of candidate paths; 0 when there are none.
pub open spec fn asn_of(routes: Seq<Route>) -> u32 {
    if routes.len() == 0 {
        0
    } else {
        let i = best_index(routes);
        pick_asn(routes[i], routes.remove(i))
    }
}

/// The index of the primary path of `routes`.
pub fn select_primary(routes: &Vec<Route>) -> (r: usize)
    requires
        routes@.len() > 0,
    ensures
        r as int == best_index(routes@),
        r < routes@.len(),
{
    let mut b: usize = 0;
    let mut n: usize = 1;
    while n < routes.len()
        invariant
            1 <= n <= routes@.len(),
            b as int == best_index_upto(routes@, n as int),
            b < n,
        decreases routes@.len() - n,
    {
        let x = &routes[b];
        let y = &routes[n];
        let good = x.pref > y.pref || (x.pref == y.pref && x.path_len < y.path_len) || (x.pref == y.pref
            && x.path_len == y.path_len && x.med <= y.med);
        if !good {
            b = n;
        }
        n += 1;
    }
    b
}

fn suffix_holds(r: &Route, asn: u32) -> (b: bool)
    ensures
        b == r.path_suffix@.contains(asn),
{
    let b = r.path_suffix[0] == asn || r.path_suffix[1] == asn || r.path_suffix[2] == asn;
    proof {
        if b {
            if r.path_suffix[0] == asn {
                assert(r.path_suffix@[0] == asn);
            } else if r.path_suffix[1] == asn {
                assert(r.path_suffix@[1] == asn);
            } else {
                assert(r.path_suffix@[2] == asn);
            }
        }
    }
    b
}

fn shared_among(routes: &Vec<Route>, skip: usize, asn: u32) -> (b: bool)
    requires
        skip < routes@.len(),
    ensures
        b == shared_by(asn, routes@.remove(skip as int)),
{
    if asn == 0 {
        return false;
    }
    let ghost others = routes@.remove(skip as int);
    let mut j: usize = 0;
    while j < routes.len()
        invariant
            skip < routes@.len(),
            j <= routes@.len(),
            others == routes@.remove(skip as int),
            forall|x: int| 0 <= x < j && x != skip ==> (#[trigger] routes@[x]).path_suffix@.contains(asn),
        decreases routes@.len() - j,
    {
        if j != skip && !suffix_holds(&routes[j], asn) {
            let ghost y = if (j as int) < skip as int { j as int } else { j as int - 1 };
            assert(others[y] == routes@[j as int]);
            return false;
        }
        j += 1;
    }
    assert forall|y: int| 0 <= y < others.len() implies (#[trigger] others[y]).path_suffix@.contains(asn) by {
        let x = if y < skip as int { y } else { y + 1 };
        assert(others[y] == routes@[x]);
    }
    true
}

/// The ASN for the candidate paths `routes`.
pub fn asn_for_routes(routes: &Vec<Route>) -> (r: u32)
    ensures
        r == asn_of(routes@),
{
    if routes.len() == 0 {
        return 0;
    }
    let i = select_primary(routes);
    let p = routes[i];
    let s = p.path_suffix;
    if shared_among(routes, i, s[2]) {
        s[2]
    } else if shared_among(routes, i, s[1]) {
        s[1]
    } else if shared_among(routes, i, s[0]) {
        s[0]
    } else if s[2] != 0 {
        s[2]
    } else if s[1] != 0 {
        s[1]
    } else {
        s[0]
    }
}

/// The suffix of the primary path for the candidate paths `routes`; all 0
/// when there are none.
pub open spec fn primary_suffix(routes: Seq<Route>) -> Seq<u32> {
    if routes.len() == 0 {
        seq![0u32, 0u32, 0u32]
    } else {
        routes[best_index(routes)].path_suffix@
    }
}

/// A message of the BGP session, as far as the client reads it.
pub enum BgpMessage {
    Open,
    KeepAlive,
    Update(BgpUpdate),
    Other,
}

/// The content of an UPDATE (after MP_REACH/MP_UNREACH prefixes are moved
/// into the announced and withdrawn lists).
pub struct BgpUpdate {
    pub withdrawn_routes: Vec<Nlri>,
    pub attributes: Vec<PathAttribute>,
    pub announced_routes: Vec<Nlri>,
}

/// What the session does after a message.
#[derive(Clone, Copy, Debug, PartialEq, Eq, Structural)]
pub enum SessionAction {
    /// The client is shutting down: end the session.
    Stop,
    /// The peer's OPEN arrived: the session is established.
    Connected,
    /// Answer with a KEEPALIVE.
    SendKeepAlive,
    /// The tables changed.
    TableUpdated,
    /// Nothing to do.
    Ignore,
}

/// The OPEN this client sends.
#[derive(Clone, Copy, Debug, PartialEq, Eq, Structural)]
pub struct OpenParams {
    pub version: u8,
    /// AS_TRANS: the real ASN goes in the four-octet capability.
    pub peer_asn: u16,
    pub hold_timer: u16,
    pub identifier: u32,
    /// The four-octet ASN capability's value.
    pub four_octet_asn: u32,
}

/// The OPEN parameters for a hold time of `hold_secs` seconds.
pub fn open_params(hold_secs: u64) -> (r: OpenParams)
    ensures
        r.version == 4,
        r.peer_asn == 23456,
        r.hold_timer == hold_secs as u16,
        r.identifier == 0x453b1215,
        r.four_octet_asn == 397444,
{
    OpenParams {
        version: 4,
        peer_asn: 23456,
        hold_timer: hold_secs as u16,
        identifier: 0x453b1215,
        four_octet_asn: 397444,
    }
}

/// All of `nlris` withdrawn from `m`, in order.
pub open spec fn withdraw_all(m: RouteMap, nlris: Seq<Nlri>) -> RouteMap
    decreases nlris.len(),
{
    if nlris.len() == 0 {
        m
    } else {
        withdrawn(withdraw_all(m, nlris.drop_last()), nlris.last())
    }
}

/// All of `nlris` announced in `m` with `route`, in order.
pub open spec fn announce_all(m: RouteMap, nlris: Seq<Nlri>, route: Route) -> RouteMap
    decreases nlris.len(),
{
    if nlris.len() == 0 {
        m
    } else {
        announced(announce_all(m, nlris.drop_last(), route), nlris.last(), route)
    }
}

/// The abstract state of a client: its routes and its shutdown flag.
pub struct ClientState {
    pub routes: RouteMap,
    pub shutdown: bool,
}

/// A passive BGP client's state: the routing tables it learned and whether
/// it was told to disconnect.
pub struct BGPClient {
    routes: RoutingTable,
    shutdown: bool,
}

impl View for BGPClient {
    type V = ClientState;

    closed spec fn view(&self) -> ClientState {
        ClientState { routes: self.routes@, shutdown: self.shutdown }
    }
}

impl BGPClient {
    pub closed spec fn wf(&self) -> bool {
        self.routes.wf()
    }

    /// A client with empty tables.
    pub fn new() -> (r: Self)
        ensures
            r.wf(),
            r@.routes == RouteMap::empty(),
            !r@.shutdown,
    {
        BGPClient { routes: RoutingTable::new(), shutdown: false }
    }

    /// The ASN to attribute to `addr`, from the paths of its longest match.
    pub fn get_asn(&self, addr: IpAddress) -> (r: u32)
        requires
            self.wf(),
        ensures
            r == asn_of(routes_of(longest_match(self@.routes, addr).1)),
    {
        let (_, paths) = self.routes.get_route_attrs(addr);
        asn_for_routes(&paths)
    }

    /// The longest match's length and its primary path's suffix; `(0, [0, 0, 0])`
    /// when nothing covers `addr`.
    pub fn get_path(&self, addr: IpAddress) -> (r: (u8, [u32; PATH_SUFFIX_LEN]))
        requires
            self.wf(),
        ensures
            r.0 as nat == longest_match(self@.routes, addr).0,
            r.1@ == primary_suffix(routes_of(longest_match(self@.routes, addr).1)),
    {
        let (prefix_len, paths) = self.routes.get_route_attrs(addr);
        if paths.len() == 0 {
            let z = [0u32, 0u32, 0u32];
            assert(z@ =~= seq![0u32, 0u32, 0u32]);
            return (prefix_len, z);
        }
        let i = select_primary(&paths);
        (prefix_len, paths[i].path_suffix)
    }

    /// Tells the session to stop at its next message and not to reconnect.
    pub fn disconnect(&mut self)
        requires
            old(self).wf(),
        ensures
            final(self).wf(),
            final(self)@ == (ClientState { shutdown: true, ..old(self)@ }),
    {
        self.shutdown = true;
    }

    /// Whether a closed session should be reopened.
    pub fn should_reconnect(&self) -> (r: bool)
        ensures
            r == !self@.shutdown,
    {
        !self.shutdown
    }

    /// The routing table.
    pub fn routes(&self) -> (r: &RoutingTable)
        ensures
            r@ == self@.routes,
            self.wf() ==> r.wf(),
    {
        &self.routes
    }

    /// Handles one message of the session: an OPEN clears both tables, a
    /// KEEPALIVE is echoed, an UPDATE withdraws its withdrawn prefixes and
    /// then announces its announced prefixes with the route its attributes
    /// describe (none without an AS path); anything else is ignored. Once
    /// the client is shutting down, every message stops the session.
    pub fn handle_message(&mut self, msg: BgpMessage) -> (r: SessionAction)
        requires
            old(self).wf(),
        ensures
            final(self).wf(),
            final(self)@.shutdown == old(self)@.shutdown,
            old(self)@.shutdown ==> r == SessionAction::Stop && final(self)@ == old(self)@,
            !old(self)@.shutdown ==> match msg {
                BgpMessage::Open => r == SessionAction::Connected && final(self)@.routes == RouteMap::empty(),
                BgpMessage::KeepAlive => r == SessionAction::SendKeepAlive && final(self)@ == old(self)@,
                BgpMessage::Update(u) => {
                    let after_withdraw = withdraw_all(old(self)@.routes, u.withdrawn_routes@);
                    &&& r == SessionAction::TableUpdated
                    &&& exists|route: Option<Route>|
                        {
                            &&& describes(u.attributes@, route)
                            &&& final(self)@.routes == match route {
                                Some(rt) => announce_all(after_withdraw, u.announced_routes@, rt),
                                None => after_withdraw,
                            }
                        }
                },
                BgpMessage::Other => r == SessionAction::Ignore && final(self)@ == old(self)@,
            },
    {
        if self.shutdown {
            return SessionAction::Stop;
        }
        match msg {
            BgpMessage::Open => {
                self.routes.clear();
                SessionAction::Connected
            },
            BgpMessage::KeepAlive => SessionAction::SendKeepAlive,
            BgpMessage::Update(u) => {
                let ghost pre = self.routes@;
                let mut i: usize = 0;
                while i < u.withdrawn_routes.len()
                    invariant
                        self.routes.wf(),
                        !self.shutdown,
                        i <= u.withdrawn_routes@.len(),
                        self.routes@ == withdraw_all(pre, u.withdrawn_routes@.take(i as int)),
                    decreases u.withdrawn_routes@.len() - i,
                {
                    assert(u.withdrawn_routes@.take(i as int + 1).drop_last() =~= u.withdrawn_routes@.take(
                        i as int,
                    ));
                    self.routes.withdraw(u.withdrawn_routes[i]);
                    i += 1;
                }
                assert(u.withdrawn_routes@.take(i as int) =~= u.withdrawn_routes@);
                let ghost mid = self.routes@;
                let ghost attrs = u.attributes@;
                let route = map_attrs(u.attributes);
                match route {
                    Some(rt) => {
                        let mut j: usize = 0;
                        while j < u.announced_routes.len()
                            invariant
                                self.routes.wf(),
                                !self.shutdown,
                                j <= u.announced_routes@.len(),
                                self.routes@ == announce_all(mid, u.announced_routes@.take(j as int), rt),
                            decreases u.announced_routes@.len() - j,
                        {
                            assert(u.announced_routes@.take(j as int + 1).drop_last()
                                =~= u.announced_routes@.take(j as int));
                            self.routes.announce(u.announced_routes[j], rt);
                            j += 1;
                        }
                        assert(u.announced_routes@.take(j as int) =~= u.announced_routes@);
                    },
                    None => {},
                }
                assert(describes(attrs, route));
                SessionAction::TableUpdated
            },
            BgpMessage::Other => SessionAction::Ignore,
        }
    }
}

} // verus!
