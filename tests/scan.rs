use dnsseed::scan::{
	log_line, scan_spacing_millis, LogLine, AddressState, Checkpoint, FailDetail, InvKind, PeerMessage, Reply, ScanState,
};

const HEIGHT: u64 = 700_000;
const NONCE: u64 = 0xdead_beef;
const SERVICES: u64 = 1 | 8 | 1024;

fn block() -> Vec<u8> {
	vec![1, 2, 3, 4, 5]
}

fn version(start_height: i32) -> PeerMessage {
	PeerMessage::Version { start_height, version: 70016, services: SERVICES, subver_matches: true }
}

fn through_addr() -> ScanState {
	let mut s = ScanState::with_nonce(HEIGHT, block(), NONCE);
	assert_eq!(s.handle(version(HEIGHT as i32), 70001).replies, vec![Reply::SendAddrV2, Reply::Verack]);
	assert_eq!(s.handle(PeerMessage::Verack, 70001).replies, vec![Reply::Ping(NONCE)]);
	assert_eq!(s.handle(PeerMessage::Pong(NONCE), 70001).replies, vec![Reply::GetAddr]);
	let st = s.handle(PeerMessage::Addr { count: 11 }, 70001);
	assert_eq!(st.replies, vec![Reply::GetChallengeBlock]);
	assert!(!st.end);
	s
}

#[test]
fn scan_good_peer() {
	let mut s = through_addr();
	assert_eq!(s.handle(PeerMessage::Ping(5), 70001).replies, vec![Reply::Pong(5)]);
	let st = s.handle(PeerMessage::Block(block()), 70001);
	assert!(st.end);
	assert!(st.replies.is_empty());
	assert_eq!(s.finish(), (AddressState::Good, SERVICES));
	assert_eq!(s.detail(), FailDetail::Accepted);
}

#[test]
fn scan_low_block_count() {
	let mut s = ScanState::with_nonce(HEIGHT, block(), NONCE);
	let st = s.handle(version(HEIGHT as i32 - 1), 70001);
	assert!(st.end);
	assert_eq!(
		s.detail(),
		FailDetail::LowHeight { start_height: HEIGHT as i32 - 1, challenge_height: HEIGHT }
	);
	assert_eq!(s.finish(), (AddressState::LowBlockCount, 0));
}

#[test]
fn scan_high_block_count() {
	let mut s = ScanState::with_nonce(HEIGHT, block(), NONCE);
	assert!(s.handle(version(HEIGHT as i32 + 2017), 70001).end);
	assert_eq!(s.finish(), (AddressState::HighBlockCount, 0));
	let mut s = ScanState::with_nonce(HEIGHT, block(), NONCE);
	assert!(!s.handle(version(HEIGHT as i32 + 2016), 70001).end);
	let mut s = ScanState::with_nonce(HEIGHT, block(), NONCE);
	assert!(s.handle(version(-1), 70001).end);
	assert_eq!(s.fail_reason(), AddressState::LowBlockCount);
	assert_eq!(s.detail(), FailDetail::LowHeight { start_height: -1, challenge_height: HEIGHT });
}

#[test]
fn scan_version_checks() {
	let mut s = ScanState::with_nonce(HEIGHT, block(), NONCE);
	s.handle(PeerMessage::Version { start_height: HEIGHT as i32, version: 70000, services: SERVICES, subver_matches: true }, 70001);
	assert_eq!(s.finish(), (AddressState::LowVersion, 0));
	assert_eq!(s.detail(), FailDetail::OldVersion { version: 70000, min_version: 70001 });
	let mut s = ScanState::with_nonce(HEIGHT, block(), NONCE);
	s.handle(PeerMessage::Version { start_height: HEIGHT as i32, version: 70016, services: 8, subver_matches: true }, 70001);
	assert_eq!(s.finish(), (AddressState::NotFullNode, 0));
	assert_eq!(s.detail(), FailDetail::Services { services: 8 });
	let mut s = ScanState::with_nonce(HEIGHT, block(), NONCE);
	assert!(!s.handle(PeerMessage::Version { start_height: HEIGHT as i32, version: 70016, services: 1024, subver_matches: true }, 70001).end);
	let mut s = ScanState::with_nonce(HEIGHT, block(), NONCE);
	s.handle(PeerMessage::Version { start_height: HEIGHT as i32, version: 70016, services: 1, subver_matches: false }, 70001);
	assert_eq!(s.finish(), (AddressState::BadVersion, 0));
}

#[test]
fn scan_evil_peer() {
	let mut s = ScanState::with_nonce(HEIGHT, block(), NONCE);
	s.handle(version(HEIGHT as i32), 70001);
	s.handle(PeerMessage::Verack, 70001);
	assert!(!s.handle(PeerMessage::Inv(vec![InvKind::Other]), 70001).end);
	let st = s.handle(PeerMessage::Inv(vec![InvKind::Other, InvKind::Transaction]), 70001);
	assert!(st.end);
	assert_eq!(s.finish(), (AddressState::EvilNode, 0));
	assert_eq!(s.detail(), FailDetail::UnrequestedInvTx);
	let mut s = ScanState::with_nonce(HEIGHT, block(), NONCE);
	assert!(s.handle(PeerMessage::Tx, 70001).end);
	assert_eq!(s.finish(), (AddressState::EvilNode, 0));
	let mut s = ScanState::with_nonce(HEIGHT, block(), NONCE);
	assert!(!s.handle(PeerMessage::Unknown { command: "feefilter".to_string() }, 70001).end);
	assert!(s.handle(PeerMessage::Unknown { command: "gnop".to_string() }, 70001).end);
	assert_eq!(s.detail(), FailDetail::BadMessageType);
}

#[test]
fn scan_timeout_awaiting_block() {
	let s = through_addr();
	assert_eq!(s.finish(), (AddressState::TimeoutAwaitingBlock, 0));
}

#[test]
fn scan_timeout_promotions() {
	let s = ScanState::with_nonce(HEIGHT, block(), NONCE);
	assert_eq!(s.finish(), (AddressState::Timeout, 0));
	let mut s = ScanState::with_nonce(HEIGHT, block(), NONCE);
	s.handle(version(HEIGHT as i32), 70001);
	assert_eq!(s.finish(), (AddressState::TimeoutDuringRequest, 0));
	s.handle(PeerMessage::Verack, 70001);
	assert_eq!(s.finish(), (AddressState::TimeoutAwaitingPong, 0));
	s.handle(PeerMessage::Pong(NONCE), 70001);
	assert_eq!(s.finish(), (AddressState::TimeoutAwaitingAddr, 0));
	s.handle(PeerMessage::AddrV2 { count: 10 }, 70001);
	assert_eq!(s.finish(), (AddressState::TimeoutAwaitingAddr, 0));
}

#[test]
fn scan_duplicates_are_violations() {
	let mut s = ScanState::with_nonce(HEIGHT, block(), NONCE);
	s.handle(version(HEIGHT as i32), 70001);
	assert!(s.handle(version(HEIGHT as i32), 70001).end);
	assert_eq!(s.finish(), (AddressState::ProtocolViolation, 0));
	assert_eq!(s.detail(), FailDetail::Duplicate(Checkpoint::Version));
	let mut s = ScanState::with_nonce(HEIGHT, block(), NONCE);
	s.handle(version(HEIGHT as i32), 70001);
	assert!(s.handle(version(HEIGHT as i32 - 1), 70001).end);
	assert_eq!(s.finish(), (AddressState::ProtocolViolation, 0));
	assert_eq!(s.detail(), FailDetail::Duplicate(Checkpoint::Version));
	let mut s = ScanState::with_nonce(HEIGHT, block(), NONCE);
	s.handle(version(HEIGHT as i32), 70001);
	s.handle(PeerMessage::Verack, 70001);
	assert!(s.handle(PeerMessage::Verack, 70001).end);
	assert_eq!(s.detail(), FailDetail::Duplicate(Checkpoint::Verack));
	let mut s = through_addr();
	assert!(s.handle(PeerMessage::Pong(NONCE), 70001).end);
	assert_eq!(s.finish(), (AddressState::ProtocolViolation, 0));
	let mut s = through_addr();
	assert!(s.handle(PeerMessage::AddrV2 { count: 500 }, 70001).end);
	assert_eq!(s.detail(), FailDetail::Duplicate(Checkpoint::Addr));
}

#[test]
fn scan_protocol_violations() {
	let mut s = ScanState::with_nonce(HEIGHT, block(), NONCE);
	assert!(s.handle(PeerMessage::Pong(NONCE + 1), 70001).end);
	assert_eq!(s.detail(), FailDetail::BadPongNonce);
	let mut s = ScanState::with_nonce(HEIGHT, block(), NONCE);
	assert!(s.handle(PeerMessage::Addr { count: 1001 }, 70001).end);
	assert_eq!(s.detail(), FailDetail::OversizedAddr { count: 1001 });
	let mut s = ScanState::with_nonce(HEIGHT, block(), NONCE);
	s.handle(version(HEIGHT as i32), 70001);
	s.handle(PeerMessage::Verack, 70001);
	s.handle(PeerMessage::Pong(NONCE), 70001);
	assert!(!s.handle(PeerMessage::Addr { count: 1000 }, 70001).end);
	let mut s = through_addr();
	assert!(s.handle(PeerMessage::Block(vec![1, 2, 3, 4, 6]), 70001).end);
	assert_eq!(s.finish(), (AddressState::ProtocolViolation, 0));
	assert_eq!(s.detail(), FailDetail::BadBlock);
}

#[test]
fn scan_random_nonce_is_echoed() {
	let mut s = ScanState::new(HEIGHT, block());
	s.handle(version(HEIGHT as i32), 1);
	let st = s.handle(PeerMessage::Verack, 1);
	match st.replies[..] {
		[Reply::Ping(n)] => {
			assert_eq!(s.handle(PeerMessage::Pong(n), 1).replies, vec![Reply::GetAddr]);
		},
		_ => panic!("expected one ping"),
	}
}

#[test]
fn scan_spacing() {
	assert_eq!(scan_spacing_millis(60, 7), 8571);
	assert_eq!(scan_spacing_millis(60, 1), 60000);
}

#[test]
fn scan_log_only_on_change() {
	assert_eq!(log_line(AddressState::Good, AddressState::Good, false, FailDetail::Accepted), LogLine::Silent);
	assert_eq!(
		log_line(AddressState::Untested, AddressState::Good, false, FailDetail::Accepted),
		LogLine::Change { err: false }
	);
	assert_eq!(log_line(AddressState::Good, AddressState::Good, true, FailDetail::Accepted), LogLine::Change { err: false });
	assert_eq!(
		log_line(AddressState::Good, AddressState::TimeoutDuringRequest, false, FailDetail::Accepted),
		LogLine::TimeoutDuringRequest
	);
	assert_eq!(
		log_line(AddressState::TimeoutDuringRequest, AddressState::TimeoutDuringRequest, false, FailDetail::Nothing),
		LogLine::Silent
	);
	assert_eq!(
		log_line(AddressState::Good, AddressState::EvilNode, false, FailDetail::UnrequestedTx),
		LogLine::Change { err: true }
	);
	assert_eq!(log_line(AddressState::Good, AddressState::TimeoutAwaitingBlock, false, FailDetail::Accepted), LogLine::Silent);
	assert_eq!(log_line(AddressState::EvilNode, AddressState::EvilNode, false, FailDetail::UnrequestedTx), LogLine::Silent);
}

#[test]
fn scan_checkpoints_out_of_order() {
	let mut s = ScanState::with_nonce(HEIGHT, block(), NONCE);
	assert!(s.handle(PeerMessage::Verack, 70001).end);
	assert_eq!(s.detail(), FailDetail::OutOfOrder(Checkpoint::Verack));
	assert!(s.handle(version(HEIGHT as i32), 70001).end);
	assert_eq!(s.finish(), (AddressState::ProtocolViolation, 0));

	let mut s = ScanState::with_nonce(HEIGHT, block(), NONCE);
	s.handle(version(HEIGHT as i32), 70001);
	s.handle(PeerMessage::Verack, 70001);
	assert!(s.handle(PeerMessage::Addr { count: 11 }, 70001).end);
	assert_eq!(s.detail(), FailDetail::OutOfOrder(Checkpoint::Addr));
	assert_eq!(s.finish(), (AddressState::ProtocolViolation, 0));

	let mut s = ScanState::with_nonce(HEIGHT, block(), NONCE);
	s.handle(version(HEIGHT as i32), 70001);
	assert!(s.handle(PeerMessage::Pong(NONCE), 70001).end);
	assert_eq!(s.detail(), FailDetail::OutOfOrder(Checkpoint::Pong));

	let mut s = ScanState::with_nonce(HEIGHT, block(), NONCE);
	s.handle(version(HEIGHT as i32), 70001);
	s.handle(PeerMessage::Verack, 70001);
	s.handle(PeerMessage::Pong(NONCE), 70001);
	assert!(s.handle(PeerMessage::Block(block()), 70001).end);
	assert_eq!(s.detail(), FailDetail::OutOfOrder(Checkpoint::Block));
	assert_eq!(s.finish(), (AddressState::ProtocolViolation, 0));
}

#[test]
fn scan_ended_session_ignores_later_messages() {
	let mut s = through_addr();
	assert!(s.handle(PeerMessage::Block(block()), 70001).end);
	assert_eq!(s.finish(), (AddressState::Good, SERVICES));
	let st = s.handle(PeerMessage::Pong(NONCE + 1), 70001);
	assert!(st.end && st.replies.is_empty());
	assert!(s.handle(PeerMessage::Block(vec![9]), 70001).end);
	assert_eq!(s.finish(), (AddressState::Good, SERVICES));
	let mut s = ScanState::with_nonce(HEIGHT, block(), NONCE);
	s.handle(PeerMessage::Tx, 70001);
	assert!(s.handle(PeerMessage::Ping(1), 70001).replies.is_empty());
	assert_eq!(s.finish(), (AddressState::EvilNode, 0));
}
