use dnsseed::bgp::{
	map_attrs, open_params, select_primary, AsPath, AsSegment, BGPClient, BgpMessage, BgpUpdate, PathAttribute,
	SessionAction,
};
use dnsseed::routing::{IpAddress, IpPrefix, Nlri, Route, RoutingTable};

fn v4(a: u8, b: u8, c: u8, d: u8) -> IpAddress {
	IpAddress::V4(u32::from_be_bytes([a, b, c, d]))
}

fn sequence_path(asns: Vec<u32>) -> Vec<PathAttribute> {
	vec![PathAttribute::AsPath(AsPath { segments: vec![AsSegment::AsSequence(asns)] })]
}

fn update(attrs: Vec<PathAttribute>, announced: Vec<Nlri>, withdrawn: Vec<Nlri>) -> BgpMessage {
	BgpMessage::Update(BgpUpdate { withdrawn_routes: withdrawn, attributes: attrs, announced_routes: announced })
}

fn route(suffix: [u32; 3], path_len: u32, pref: u32, med: u32) -> Route {
	Route { path_suffix: suffix, path_len, pref, med }
}

#[test]
fn bgp_update_then_lookup() {
	let mut client = BGPClient::new();
	let a = client.handle_message(update(
		sequence_path(vec![100, 100, 200, 300]),
		vec![Nlri::Ip(IpPrefix { addr: v4(10, 0, 0, 0), len: 8 })],
		vec![],
	));
	assert_eq!(a, SessionAction::TableUpdated);
	client.handle_message(update(
		sequence_path(vec![100, 400]),
		vec![Nlri::Ip(IpPrefix { addr: v4(192, 168, 1, 0), len: 24 })],
		vec![],
	));
	assert_eq!(client.get_asn(v4(192, 168, 1, 5)), 400);
	assert_eq!(client.get_asn(v4(10, 1, 2, 3)), 300);
	assert_eq!(client.get_asn(v4(11, 1, 2, 3)), 0);
	assert_eq!(client.get_path(v4(10, 1, 2, 3)), (8, [100, 200, 300]));
	assert_eq!(client.get_path(v4(192, 168, 1, 200)), (24, [0, 100, 400]));
	assert_eq!(client.get_path(v4(8, 8, 8, 8)), (0, [0, 0, 0]));
}

#[test]
fn bgp_path_dedup_keeps_length() {
	let r = map_attrs(sequence_path(vec![7, 7, 8, 8, 9])).unwrap();
	assert_eq!(r.path_len, 5);
	assert_eq!(r.path_suffix, [7, 8, 9]);
	assert_eq!(r.pref, 100);
	assert_eq!(r.med, 0);
}

#[test]
fn bgp_attrs_prefer_as4_path_and_read_pref_med() {
	let attrs = vec![
		PathAttribute::AsPath(AsPath { segments: vec![AsSegment::AsSequence(vec![23456, 23456])] }),
		PathAttribute::LocalPref(200),
		PathAttribute::As4Path(AsPath {
			segments: vec![
				AsSegment::AsSequence(vec![1, 2]),
				AsSegment::AsSet(vec![50, 51]),
				AsSegment::AsSequence(vec![3, 4, 4, 5]),
			],
		}),
		PathAttribute::MultiExitDisc(9),
		PathAttribute::Other,
	];
	let r = map_attrs(attrs).unwrap();
	assert_eq!(r.path_len, 6);
	assert_eq!(r.path_suffix, [3, 4, 5]);
	assert_eq!(r.pref, 200);
	assert_eq!(r.med, 9);
	assert!(map_attrs(vec![PathAttribute::LocalPref(5)]).is_none());
	assert!(map_attrs(vec![]).is_none());
}

#[test]
fn bgp_short_path_is_padded() {
	let r = map_attrs(sequence_path(vec![64512])).unwrap();
	assert_eq!(r.path_suffix, [0, 0, 64512]);
	let empty = map_attrs(sequence_path(vec![])).unwrap();
	assert_eq!(empty.path_suffix, [0, 0, 0]);
	assert_eq!(empty.path_len, 0);
}

#[test]
fn routing_longest_match_wins() {
	let mut t = RoutingTable::new();
	t.announce(Nlri::Ip(IpPrefix { addr: v4(10, 1, 0, 0), len: 16 }), route([0, 1, 16], 2, 100, 0));
	t.announce(Nlri::Ip(IpPrefix { addr: v4(10, 1, 2, 0), len: 24 }), route([0, 1, 24], 2, 100, 0));
	let (len, routes) = t.get_route_attrs(v4(10, 1, 2, 3));
	assert_eq!(len, 24);
	assert_eq!(routes.len(), 1);
	assert_eq!(routes[0].path_suffix, [0, 1, 24]);
	let (len, routes) = t.get_route_attrs(v4(10, 1, 3, 3));
	assert_eq!(len, 16);
	assert_eq!(routes[0].path_suffix, [0, 1, 16]);
	assert_eq!(t.v4_len(), 2);
	assert_eq!(t.v6_len(), 0);
}

#[test]
fn routing_withdraw_leaves_empty_prefix_unmatched() {
	let mut t = RoutingTable::new();
	let p16 = IpPrefix { addr: v4(10, 1, 0, 0), len: 16 };
	let p24 = IpPrefix { addr: v4(10, 1, 2, 0), len: 24 };
	t.announce(Nlri::Ip(p16), route([0, 0, 16], 1, 100, 0));
	t.announce(Nlri::IpWithPathId(p24, 3), route([0, 0, 24], 1, 100, 0));
	t.withdraw(Nlri::Ip(p24));
	assert_eq!(t.get_route_attrs(v4(10, 1, 2, 3)).0, 24);
	t.withdraw(Nlri::IpWithPathId(p24, 3));
	let (len, routes) = t.get_route_attrs(v4(10, 1, 2, 3));
	assert_eq!(len, 16);
	assert_eq!(routes[0].path_suffix, [0, 0, 16]);
	assert_eq!(t.v4_len(), 2);
	t.withdraw(Nlri::Ip(IpPrefix { addr: v4(1, 2, 3, 0), len: 24 }));
	t.withdraw(Nlri::IpMpls);
	t.withdraw(Nlri::Ip(p16));
	let (len, routes) = t.get_route_attrs(v4(10, 1, 2, 3));
	assert_eq!(len, 0);
	assert!(routes.is_empty());
}

#[test]
fn routing_add_path_replaces_same_id() {
	let mut t = RoutingTable::new();
	let p = IpPrefix { addr: v4(192, 0, 2, 0), len: 24 };
	t.announce(Nlri::IpWithPathId(p, 1), route([0, 0, 1], 1, 100, 0));
	t.announce(Nlri::IpWithPathId(p, 2), route([0, 0, 2], 1, 100, 0));
	t.announce(Nlri::IpWithPathId(p, 1), route([0, 0, 3], 1, 100, 0));
	t.announce(Nlri::IpMpls, route([0, 0, 4], 1, 100, 0));
	let (_, routes) = t.get_route_attrs(v4(192, 0, 2, 9));
	let suffixes: Vec<[u32; 3]> = routes.iter().map(|r| r.path_suffix).collect();
	assert_eq!(suffixes, vec![[0, 0, 3], [0, 0, 2]]);
}

#[test]
fn routing_v6_lookup() {
	let mut t = RoutingTable::new();
	let net: u128 = 0x2001_0db8_0000_0000_0000_0000_0000_0000;
	t.announce(Nlri::Ip(IpPrefix { addr: IpAddress::V6(net), len: 32 }), route([0, 0, 6], 1, 100, 0));
	let (len, routes) = t.get_route_attrs(IpAddress::V6(net | 0x1234));
	assert_eq!(len, 32);
	assert_eq!(routes[0].path_suffix, [0, 0, 6]);
	assert_eq!(t.get_route_attrs(IpAddress::V4(0x2001_0db8)).0, 0);
	assert_eq!(t.v6_len(), 1);
	t.announce(Nlri::Ip(IpPrefix { addr: IpAddress::V4(1), len: 33 }), route([0, 0, 7], 1, 100, 0));
	assert_eq!(t.v4_len(), 0);
}

#[test]
fn path_selection_ranks_pref_then_length_then_med() {
	let routes = vec![
		route([0, 0, 1], 2, 100, 5),
		route([0, 0, 2], 3, 200, 0),
		route([0, 0, 3], 2, 200, 7),
		route([0, 0, 4], 2, 200, 3),
		route([0, 0, 5], 1, 150, 0),
	];
	assert_eq!(select_primary(&routes), 3);
	assert_eq!(select_primary(&vec![route([0, 0, 9], 4, 1, 1)]), 0);
	let tied = vec![route([0, 0, 1], 2, 100, 5), route([0, 0, 2], 2, 100, 5)];
	assert_eq!(select_primary(&tied), 0);
}

#[test]
fn asn_prefers_ancestor_shared_by_all_paths() {
	let mut client = BGPClient::new();
	let p = IpPrefix { addr: v4(203, 0, 113, 0), len: 24 };
	client.handle_message(update(
		vec![
			PathAttribute::AsPath(AsPath { segments: vec![AsSegment::AsSequence(vec![1, 2, 3, 10])] }),
			PathAttribute::LocalPref(300),
		],
		vec![Nlri::IpWithPathId(p, 1)],
		vec![],
	));
	client.handle_message(update(sequence_path(vec![9, 3, 11]), vec![Nlri::IpWithPathId(p, 2)], vec![]));
	assert_eq!(client.get_asn(v4(203, 0, 113, 1)), 3);
	client.handle_message(update(sequence_path(vec![9, 8, 7]), vec![Nlri::IpWithPathId(p, 2)], vec![]));
	assert_eq!(client.get_asn(v4(203, 0, 113, 1)), 10);
}

#[test]
fn session_open_keepalive_and_shutdown() {
	let mut client = BGPClient::new();
	client.handle_message(update(
		sequence_path(vec![1]),
		vec![Nlri::Ip(IpPrefix { addr: v4(10, 0, 0, 0), len: 8 })],
		vec![],
	));
	assert_eq!(client.handle_message(BgpMessage::KeepAlive), SessionAction::SendKeepAlive);
	assert_eq!(client.handle_message(BgpMessage::Other), SessionAction::Ignore);
	assert_eq!(client.get_asn(v4(10, 0, 0, 1)), 1);
	assert_eq!(client.handle_message(BgpMessage::Open), SessionAction::Connected);
	assert_eq!(client.get_asn(v4(10, 0, 0, 1)), 0);
	client.handle_message(update(
		sequence_path(vec![5]),
		vec![Nlri::Ip(IpPrefix { addr: v4(10, 0, 0, 0), len: 8 })],
		vec![],
	));
	client.handle_message(update(vec![], vec![], vec![Nlri::Ip(IpPrefix { addr: v4(10, 0, 0, 0), len: 8 })]));
	assert_eq!(client.get_asn(v4(10, 0, 0, 1)), 0);
	assert!(client.should_reconnect());
	client.disconnect();
	assert!(!client.should_reconnect());
	assert_eq!(client.handle_message(BgpMessage::KeepAlive), SessionAction::Stop);
}

#[test]
fn open_message_parameters() {
	let o = open_params(300);
	assert_eq!(o.version, 4);
	assert_eq!(o.peer_asn, 23456);
	assert_eq!(o.hold_timer, 300);
	assert_eq!(o.identifier, 0x453b1215);
	assert_eq!(o.four_octet_asn, 397444);
}

#[test]
fn routing_default_route_covers_everything() {
	let mut t = RoutingTable::new();
	t.announce(Nlri::Ip(IpPrefix { addr: v4(0, 0, 0, 0), len: 0 }), route([1, 2, 3], 3, 100, 0));
	let (len, routes) = t.get_route_attrs(v4(203, 0, 113, 7));
	assert_eq!(len, 0);
	assert_eq!(routes.len(), 1);
	t.announce(Nlri::Ip(IpPrefix { addr: v4(10, 0, 0, 0), len: 8 }), route([0, 0, 8], 1, 100, 0));
	t.withdraw(Nlri::Ip(IpPrefix { addr: v4(10, 0, 0, 0), len: 8 }));
	let (len, routes) = t.get_route_attrs(v4(10, 1, 1, 1));
	assert_eq!(len, 0);
	assert_eq!(routes[0].path_suffix, [1, 2, 3]);
	assert_eq!(t.get_route_attrs(IpAddress::V6(1)).1.len(), 0);
	let mut client = BGPClient::new();
	client.handle_message(update(
		sequence_path(vec![1, 2, 3]),
		vec![Nlri::Ip(IpPrefix { addr: IpAddress::V6(0), len: 0 })],
		vec![],
	));
	assert_eq!(client.get_asn(IpAddress::V6(0x2001_0db8 << 96)), 3);
	assert_eq!(client.get_path(IpAddress::V6(5)), (0, [1, 2, 3]));
}
