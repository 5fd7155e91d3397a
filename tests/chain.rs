use dnsseed::chain::{
	BlockOutcome, HeaderChain, HeaderLink, HeadersOutcome, TrustedEvent, TrustedMessage, TrustedPeer, TrustedReply,
};

fn h(n: u64, fork: u8) -> [u8; 32] {
	let mut a = [0u8; 32];
	a[..8].copy_from_slice(&n.to_le_bytes());
	a[31] = fork;
	a
}

fn links(from: u64, to: u64, fork: u8) -> Vec<HeaderLink> {
	(from..=to)
		.map(|n| HeaderLink { prev: if n == from { h(n - 1, 0) } else { h(n - 1, fork) }, hash: h(n, fork) })
		.collect()
}

#[test]
fn chain_starts_at_genesis() {
	let c = HeaderChain::new(h(0, 0));
	assert_eq!(c.height_of(&h(0, 0)), Some(0));
	assert_eq!(c.height_of(&h(1, 0)), None);
	assert_eq!(c.tip(), (h(0, 0), 0));
	assert_eq!(c.hash_at(0), Some(h(0, 0)));
	assert_eq!(c.hash_at(1), None);
}

#[test]
fn chain_extends_with_linked_headers() {
	let mut c = HeaderChain::new(h(0, 0));
	assert_eq!(c.accept_headers(&links(1, 3, 0)), HeadersOutcome::Extended { top_height: 3 });
	assert_eq!(c.height_of(&h(3, 0)), Some(3));
	assert_eq!(c.hash_at(2), Some(h(2, 0)));
	assert_eq!(c.tip(), (h(3, 0), 3));
	assert_eq!(c.accept_headers(&vec![]), HeadersOutcome::Empty);
	assert_eq!(c.tip(), (h(3, 0), 3));
}

#[test]
fn chain_rejects_unconnected_and_broken_headers() {
	let mut c = HeaderChain::new(h(0, 0));
	assert_eq!(c.accept_headers(&links(5, 6, 0)), HeadersOutcome::Unconnected);
	assert_eq!(c.tip(), (h(0, 0), 0));
	let mut broken = links(1, 3, 0);
	broken[2].prev = h(9, 9);
	assert_eq!(c.accept_headers(&broken), HeadersOutcome::Broken);
	assert_eq!(c.tip(), (h(0, 0), 0));
}

#[test]
fn chain_reorg_overwrites_heights() {
	let mut c = HeaderChain::new(h(0, 0));
	c.accept_headers(&links(1, 5, 0));
	let fork: Vec<HeaderLink> = vec![
		HeaderLink { prev: h(2, 0), hash: h(3, 7) },
		HeaderLink { prev: h(3, 7), hash: h(4, 7) },
	];
	assert_eq!(c.accept_headers(&fork), HeadersOutcome::Extended { top_height: 4 });
	assert_eq!(c.hash_at(3), Some(h(3, 7)));
	assert_eq!(c.hash_at(5), Some(h(5, 0)));
	assert_eq!(c.height_of(&h(4, 7)), Some(4));
	assert_eq!(c.height_of(&h(4, 0)), Some(4));
	assert_eq!(c.tip(), (h(4, 7), 4));
}

#[test]
fn chain_challenge_block_is_216_below_tip() {
	let mut c = HeaderChain::new(h(0, 0));
	c.accept_headers(&links(1, 300, 0));
	assert_eq!(c.challenge_request(300), Some(h(84, 0)));
	assert_eq!(c.challenge_request(-5), Some(h(84, 0)));
	assert_eq!(c.challenge_request(301), None);
	assert_eq!(c.on_block(&h(84, 0)), BlockOutcome::Challenge { height: 84 });
	assert_eq!(c.on_block(&h(85, 0)), BlockOutcome::Stale);
	assert_eq!(c.on_block(&h(85, 3)), BlockOutcome::Unknown);
	let mut short = HeaderChain::new(h(0, 0));
	short.accept_headers(&links(1, 100, 0));
	assert_eq!(short.challenge_request(50), None);
	assert_eq!(short.on_block(&h(0, 0)), BlockOutcome::Stale);
}

#[test]
fn trusted_session_follows_headers_and_finds_challenge() {
	let mut t = TrustedPeer::new(h(0, 0));
	let s = t.handle(TrustedMessage::Version { start_height: 250 });
	assert!(matches!(s.replies[..], [TrustedReply::Verack]));
	assert_eq!(t.starting_height, 250);
	let s = t.handle(TrustedMessage::Verack);
	assert!(matches!(s.replies[..], [TrustedReply::SendHeaders, TrustedReply::GetHeaders(x), TrustedReply::GetAddr] if x == h(0, 0)));
	let s = t.handle(TrustedMessage::Headers(links(1, 200, 0)));
	assert_eq!(s.event, TrustedEvent::HeaderCount(200));
	assert!(matches!(s.replies[..], [TrustedReply::GetHeaders(x)] if x == h(200, 0)));
	let s = t.handle(TrustedMessage::Headers(links(201, 300, 0)));
	assert_eq!(s.event, TrustedEvent::HeaderCount(300));
	assert!(matches!(s.replies[..], [TrustedReply::GetBlock(b), TrustedReply::GetHeaders(x)] if b == h(84, 0) && x == h(300, 0)));
	let s = t.handle(TrustedMessage::Block { hash: h(84, 0) });
	assert_eq!(s.event, TrustedEvent::NewChallenge { height: 84 });
	let s = t.handle(TrustedMessage::Block { hash: h(83, 0) });
	assert_eq!(s.event, TrustedEvent::Nothing);
	let s = t.handle(TrustedMessage::Ping(9));
	assert!(matches!(s.replies[..], [TrustedReply::Pong(9)]));
	let s = t.handle(TrustedMessage::Headers(vec![]));
	assert!(s.replies.is_empty() && !s.end);
	let s = t.handle(TrustedMessage::Headers(links(500, 501, 0)));
	assert_eq!(s.event, TrustedEvent::Unconnected);
	assert!(matches!(s.replies[..], [TrustedReply::GetHeaders(x)] if x == h(300, 0)));
	let mut broken = links(301, 303, 0);
	broken[1].prev = h(1, 1);
	let s = t.handle(TrustedMessage::Headers(broken));
	assert!(s.end && s.replies.is_empty());
}
