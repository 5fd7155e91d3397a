use vstd::prelude::*;
use vstd::string::StringExecFns;
use crate::rng::random_u64;

verus! {

/// How far above the challenge height a peer's advertised height may be.
pub const MAX_HEIGHT_AHEAD: u64 = 2016;

/// The most entries an ADDR message may carry.
pub const MAX_ADDR_ENTRIES: usize = 1000;

/// An ADDR message with more entries than this completes the addr checkpoint.
pub const MIN_ADDR_ENTRIES: usize = 10;

/// Service bit: the node serves the full chain.
pub const NODE_NETWORK: u64 = 1;

/// Service bit: the node serves recent blocks.
pub const NODE_NETWORK_LIMITED: u64 = 1024;

/// The classification of a peer address.
#[derive(Clone, Copy, Debug, PartialEq, Eq, Structural)]
pub enum AddressState {
    Untested,
    LowBlockCount,
    HighBlockCount,
    LowVersion,
    BadVersion,
    NotFullNode,
    ProtocolViolation,
    Timeout,
    TimeoutDuringRequest,
    TimeoutAwaitingPong,
    TimeoutAwaitingAddr,
    TimeoutAwaitingBlock,
    EvilNode,
    WasGood,
    Good,
}

/// The checkpoints of a scan.
#[derive(Clone, Copy, Debug, PartialEq, Eq, Structural)]
pub enum Checkpoint {
    Version,
    Verack,
    Pong,
    Addr,
    Block,
}

/// Why a scan ended as it did, with the values a log line reports.
#[derive(Clone, Copy, Debug, PartialEq, Eq, Structural)]
pub enum FailDetail {
    Nothing,
    /// The VERSION was accepted; the line names the peer's subversion.
    Accepted,
    /// The advertised height was below the challenge height.
    LowHeight { start_height: i32, challenge_height: u64 },
    /// The protocol version was below the minimum.
    OldVersion { version: u32, min_version: u64 },
    /// Neither full-node service bit was set.
    Services { services: u64 },
    /// The subversion did not match.
    Subversion,
    /// A checkpoint message came twice.
    Duplicate(Checkpoint),
    /// A checkpoint message came before an earlier checkpoint passed.
    OutOfOrder(Checkpoint),
    BadPongNonce,
    OversizedAddr { count: usize },
    BadBlock,
    UnrequestedInvTx,
    UnrequestedTx,
    BadMessageType,
}

impl FailDetail {
    /// Whether the detail describes an error (logged in red).
    pub open spec fn is_error(self) -> bool {
        !(self is Nothing || self is Accepted)
    }
}

/// One inventory entry of an INV.
#[derive(Clone, Copy, Debug, PartialEq, Eq, Structural)]
pub enum InvKind {
    Transaction,
    WitnessTransaction,
    Other,
}

/// A message from a peer under scan, as far as the scan reads it.
pub enum PeerMessage {
    /// `subver_matches`: whether the user agent matches the operator's pattern.
    Version { start_height: i32, version: u32, services: u64, subver_matches: bool },
    Verack,
    Ping(u64),
    Pong(u64),
    Addr { count: usize },
    AddrV2 { count: usize },
    /// A block, serialized.
    Block(Vec<u8>),
    Inv(Vec<InvKind>),
    Tx,
    Unknown { command: String },
    Other,
}

/// A message the scan sends in answer.
#[derive(Clone, Copy, Debug, PartialEq, Eq, Structural)]
pub enum Reply {
    SendAddrV2,
    Verack,
    Ping(u64),
    Pong(u64),
    GetAddr,
    /// GETDATA for the challenge block (witness serialization).
    GetChallengeBlock,
}

/// The abstract state of a scan.
pub struct ScanView {
    pub challenge_height: u64,
    pub challenge_block: Seq<u8>,
    pub pong_nonce: u64,
    pub node_services: u64,
    pub fail_reason: AddressState,
    pub detail: FailDetail,
    pub recvd_version: bool,
    pub recvd_verack: bool,
    pub recvd_pong: bool,
    pub recvd_addrs: bool,
    pub recvd_block: bool,
    /// The session is over: later messages change nothing.
    pub done: bool,
}

/// What handling one message did: the replies to send and whether the
/// session ends.
pub struct StepView {
    pub state: ScanView,
    pub replies: Seq<Reply>,
    pub end: bool,
}

pub open spec fn full_node(services: u64) -> bool {
    (services & NODE_NETWORK) == NODE_NETWORK || (services & NODE_NETWORK_LIMITED) == NODE_NETWORK_LIMITED
}

pub open spec fn gnop() -> Seq<char> {
    seq!['g', 'n', 'o', 'p']
}

pub open spec fn ended(s: ScanView, reason: AddressState, detail: FailDetail) -> StepView {
    StepView { state: ScanView { fail_reason: reason, detail, done: true, ..s }, replies: Seq::empty(), end: true }
}

/// The outcome of a first VERSION that passed its checks.
pub open spec fn version_step(s: ScanView, services: u64) -> StepView {
    StepView {
        state: ScanView { recvd_version: true, node_services: services, detail: FailDetail::Accepted, ..s },
        replies: seq![Reply::SendAddrV2, Reply::Verack],
        end: false,
    }
}

pub open spec fn addr_step(s: ScanView, count: usize) -> StepView {
    if count > MAX_ADDR_ENTRIES {
        ended(ScanView { recvd_addrs: false, ..s }, AddressState::ProtocolViolation, FailDetail::OversizedAddr { count })
    } else if count > MIN_ADDR_ENTRIES {
        if s.recvd_addrs {
            ended(ScanView { recvd_addrs: false, ..s }, AddressState::ProtocolViolation, FailDetail::Duplicate(Checkpoint::Addr))
        } else if !(s.recvd_version && s.recvd_verack && s.recvd_pong) {
            ended(s, AddressState::ProtocolViolation, FailDetail::OutOfOrder(Checkpoint::Addr))
        } else {
            StepView { state: ScanView { recvd_addrs: true, ..s }, replies: seq![Reply::GetChallengeBlock], end: false }
        }
    } else {
        StepView { state: s, replies: Seq::empty(), end: false }
    }
}

/// One message handled, from a state whose fail reason is already reset to
/// `TimeoutDuringRequest`.
pub open spec fn message_step(s: ScanView, msg: PeerMessage, min_version: u64) -> StepView {
    match msg {
        PeerMessage::Version { start_height, version, services, subver_matches } => {
            if s.recvd_version {
                ended(ScanView { recvd_version: false, ..s }, AddressState::ProtocolViolation, FailDetail::Duplicate(Checkpoint::Version))
            } else if start_height < s.challenge_height {
                ended(
                    s,
                    AddressState::LowBlockCount,
                    FailDetail::LowHeight { start_height, challenge_height: s.challenge_height },
                )
            } else if start_height > s.challenge_height + MAX_HEIGHT_AHEAD {
                ended(s, AddressState::HighBlockCount, s.detail)
            } else if version < min_version {
                ended(s, AddressState::LowVersion, FailDetail::OldVersion { version, min_version })
            } else if !full_node(services) {
                ended(s, AddressState::NotFullNode, FailDetail::Services { services })
            } else if !subver_matches {
                ended(s, AddressState::BadVersion, FailDetail::Subversion)
            } else {
                version_step(s, services)
            }
        },
        PeerMessage::Verack => {
            if s.recvd_verack {
                ended(ScanView { recvd_verack: false, ..s }, AddressState::ProtocolViolation, FailDetail::Duplicate(Checkpoint::Verack))
            } else if !s.recvd_version {
                ended(s, AddressState::ProtocolViolation, FailDetail::OutOfOrder(Checkpoint::Verack))
            } else {
                StepView { state: ScanView { recvd_verack: true, ..s }, replies: seq![Reply::Ping(s.pong_nonce)], end: false }
            }
        },
        PeerMessage::Ping(v) => StepView { state: s, replies: seq![Reply::Pong(v)], end: false },
        PeerMessage::Pong(v) => {
            if v != s.pong_nonce {
                ended(s, AddressState::ProtocolViolation, FailDetail::BadPongNonce)
            } else if s.recvd_pong {
                ended(ScanView { recvd_pong: false, ..s }, AddressState::ProtocolViolation, FailDetail::Duplicate(Checkpoint::Pong))
            } else if !(s.recvd_version && s.recvd_verack) {
                ended(s, AddressState::ProtocolViolation, FailDetail::OutOfOrder(Checkpoint::Pong))
            } else {
                StepView { state: ScanView { recvd_pong: true, ..s }, replies: seq![Reply::GetAddr], end: false }
            }
        },
        PeerMessage::Addr { count } => addr_step(s, count),
        PeerMessage::AddrV2 { count } => addr_step(s, count),
        PeerMessage::Block(b) => {
            if b@ != s.challenge_block {
                ended(s, AddressState::ProtocolViolation, FailDetail::BadBlock)
            } else if s.recvd_block {
                ended(ScanView { recvd_block: false, ..s }, AddressState::ProtocolViolation, FailDetail::Duplicate(Checkpoint::Block))
            } else if !(s.recvd_version && s.recvd_verack && s.recvd_pong && s.recvd_addrs) {
                ended(s, AddressState::ProtocolViolation, FailDetail::OutOfOrder(Checkpoint::Block))
            } else {
                StepView { state: ScanView { recvd_block: true, done: true, ..s }, replies: Seq::empty(), end: true }
            }
        },
        PeerMessage::Inv(invs) => {
            if exists|i: int| 0 <= i < invs@.len() && !(invs@[i] is Other) {
                ended(s, AddressState::EvilNode, FailDetail::UnrequestedInvTx)
            } else {
                StepView { state: s, replies: Seq::empty(), end: false }
            }
        },
        PeerMessage::Tx => ended(s, AddressState::EvilNode, FailDetail::UnrequestedTx),
        PeerMessage::Unknown { command } => {
            if command@ == gnop() {
                ended(s, AddressState::EvilNode, FailDetail::BadMessageType)
            } else {
                StepView { state: s, replies: Seq::empty(), end: false }
            }
        },
        PeerMessage::Other => StepView { state: s, replies: Seq::empty(), end: false },
    }
}

/// Handling `msg` in state `s`: once the session is over nothing changes;
/// otherwise the fail reason is reset to `TimeoutDuringRequest`, then the
/// message is checked. Each checkpoint counts only after every earlier one
/// (VERSION, VERACK, PONG, ADDR, BLOCK) has passed.
pub open spec fn scan_step(s: ScanView, msg: PeerMessage, min_version: u64) -> StepView {
    if s.done {
        StepView { state: s, replies: Seq::empty(), end: true }
    } else {
        message_step(ScanView { fail_reason: AddressState::TimeoutDuringRequest, ..s }, msg, min_version)
    }
}

pub open spec fn all_checkpoints(s: ScanView) -> bool {
    s.recvd_version && s.recvd_verack && s.recvd_pong && s.recvd_addrs && s.recvd_block
}

/// The classification a finished scan publishes, with the service bits:
/// `Good` with the peer's services when every checkpoint passed and the last
/// message handled did not fail; otherwise
/// the fail reason, narrowed from `TimeoutDuringRequest` to the first
/// missing checkpoint once VERSION and VERACK have arrived, with no services.
pub open spec fn final_class(s: ScanView) -> (AddressState, u64) {
    if all_checkpoints(s) && s.fail_reason == AddressState::TimeoutDuringRequest {
        (AddressState::Good, s.node_services)
    } else if s.fail_reason == AddressState::TimeoutDuringRequest && s.recvd_version && s.recvd_verack {
        if !s.recvd_pong {
            (AddressState::TimeoutAwaitingPong, 0)
        } else if !s.recvd_addrs {
            (AddressState::TimeoutAwaitingAddr, 0)
        } else {
            (AddressState::TimeoutAwaitingBlock, 0)
        }
    } else {
        (s.fail_reason, 0)
    }
}

/// The state of one peer scan.
pub struct ScanState {
    challenge_height: u64,
    challenge_block: Vec<u8>,
    pong_nonce: u64,
    node_services: u64,
    fail_reason: AddressState,
    detail: FailDetail,
    recvd_version: bool,
    recvd_verack: bool,
    recvd_pong: bool,
    recvd_addrs: bool,
    recvd_block: bool,
    done: bool,
}

impl View for ScanState {
    type V = ScanView;

    closed spec fn view(&self) -> ScanView {
        ScanView {
            challenge_height: self.challenge_height,
            challenge_block: self.challenge_block@,
            pong_nonce: self.pong_nonce,
            node_services: self.node_services,
            fail_reason: self.fail_reason,
            detail: self.detail,
            recvd_version: self.recvd_version,
            recvd_verack: self.recvd_verack,
            recvd_pong: self.recvd_pong,
            recvd_addrs: self.recvd_addrs,
            recvd_block: self.recvd_block,
            done: self.done,
        }
    }
}


/// The replies to send after one message, and whether the session ends.
pub struct Step {
    pub replies: Vec<Reply>,
    pub end: bool,
}

fn step_of(replies: Vec<Reply>, end: bool) -> (r: Step)
    ensures
        r.replies@ == replies@,
        r.end == end,
{
    Step { replies, end }
}

impl ScanState {
    /// A scan that challenges the peer with the block at `challenge_height`
    /// (serialized as `challenge_block`) and pings it with `pong_nonce`.
    pub fn with_nonce(challenge_height: u64, challenge_block: Vec<u8>, pong_nonce: u64) -> (r: Self)
        ensures
            r@ == (ScanView {
                challenge_height,
                challenge_block: challenge_block@,
                pong_nonce,
                node_services: 0,
                fail_reason: AddressState::Timeout,
                detail: FailDetail::Nothing,
                recvd_version: false,
                recvd_verack: false,
                recvd_pong: false,
                recvd_addrs: false,
                recvd_block: false,
                done: false,
            }),
    {
        ScanState {
            challenge_height,
            challenge_block,
            pong_nonce,
            node_services: 0,
            fail_reason: AddressState::Timeout,
            detail: FailDetail::Nothing,
            recvd_version: false,
            recvd_verack: false,
            recvd_pong: false,
            recvd_addrs: false,
            recvd_block: false,
            done: false,
        }
    }

    /// A scan with a random ping nonce.
    pub fn new(challenge_height: u64, challenge_block: Vec<u8>) -> (r: Self)
        ensures
            r@.challenge_height == challenge_height,
            r@.challenge_block == challenge_block@,
            r@.fail_reason == AddressState::Timeout,
            r@.detail == FailDetail::Nothing,
            r@.node_services == 0,
            !r@.recvd_version && !r@.recvd_verack && !r@.recvd_pong && !r@.recvd_addrs && !r@.recvd_block,
            !r@.done,
    {
        Self::with_nonce(challenge_height, challenge_block, random_u64())
    }

    fn end_with(&mut self, reason: AddressState, detail: FailDetail) -> (r: Step)
        ensures
            final(self)@ == (ScanView { fail_reason: reason, detail, done: true, ..old(self)@ }),
            r.replies@ == Seq::<Reply>::empty(),
            r.end,
    {
        self.fail_reason = reason;
        self.detail = detail;
        self.done = true;
        step_of(Vec::new(), true)
    }

    fn handle_addr(&mut self, count: usize) -> (r: Step)
        ensures
            final(self)@ == addr_step(old(self)@, count).state,
            r.replies@ == addr_step(old(self)@, count).replies,
            r.end == addr_step(old(self)@, count).end,
    {
        if count > MAX_ADDR_ENTRIES {
            self.recvd_addrs = false;
            return self.end_with(AddressState::ProtocolViolation, FailDetail::OversizedAddr { count });
        }
        if count > MIN_ADDR_ENTRIES {
            if self.recvd_addrs {
                self.recvd_addrs = false;
                return self.end_with(AddressState::ProtocolViolation, FailDetail::Duplicate(Checkpoint::Addr));
            }
            if !(self.recvd_version && self.recvd_verack && self.recvd_pong) {
                return self.end_with(AddressState::ProtocolViolation, FailDetail::OutOfOrder(Checkpoint::Addr));
            }
            self.recvd_addrs = true;
            let r = step_of(vec![Reply::GetChallengeBlock], false);
            assert(r.replies@ =~= seq![Reply::GetChallengeBlock]);
            return r;
        }
        step_of(Vec::new(), false)
    }

    /// Handles one message of the peer; `min_version` is the lowest protocol
    /// version accepted.
    pub fn handle(&mut self, msg: PeerMessage, min_version: u64) -> (r: Step)
        ensures
            final(self)@ == scan_step(old(self)@, msg, min_version).state,
            r.replies@ == scan_step(old(self)@, msg, min_version).replies,
            r.end == scan_step(old(self)@, msg, min_version).end,
    {
        if self.done {
            return step_of(Vec::new(), true);
        }
        self.fail_reason = AddressState::TimeoutDuringRequest;
        match msg {
            PeerMessage::Version { start_height, version, services, subver_matches } => {
                if self.recvd_version {
                    self.recvd_version = false;
                    return self.end_with(AddressState::ProtocolViolation, FailDetail::Duplicate(Checkpoint::Version));
                }
                if start_height < 0 || (start_height as u64) < self.challenge_height {
                    let h = self.challenge_height;
                    return self.end_with(
                        AddressState::LowBlockCount,
                        FailDetail::LowHeight { start_height, challenge_height: h },
                    );
                }
                if (start_height as u64) as u128 > self.challenge_height as u128 + MAX_HEIGHT_AHEAD as u128 {
                    let d = self.detail;
                    return self.end_with(AddressState::HighBlockCount, d);
                }
                if (version as u64) < min_version {
                    return self.end_with(AddressState::LowVersion, FailDetail::OldVersion { version, min_version });
                }
                if !((services & NODE_NETWORK) == NODE_NETWORK || (services & NODE_NETWORK_LIMITED)
                    == NODE_NETWORK_LIMITED) {
                    return self.end_with(AddressState::NotFullNode, FailDetail::Services { services });
                }
                if !subver_matches {
                    return self.end_with(AddressState::BadVersion, FailDetail::Subversion);
                }
                self.recvd_version = true;
                self.node_services = services;
                self.detail = FailDetail::Accepted;
                let r = step_of(vec![Reply::SendAddrV2, Reply::Verack], false);
                assert(r.replies@ =~= seq![Reply::SendAddrV2, Reply::Verack]);
                r
            },
            PeerMessage::Verack => {
                if self.recvd_verack {
                    self.recvd_verack = false;
                    return self.end_with(AddressState::ProtocolViolation, FailDetail::Duplicate(Checkpoint::Verack));
                }
                if !self.recvd_version {
                    return self.end_with(AddressState::ProtocolViolation, FailDetail::OutOfOrder(Checkpoint::Verack));
                }
                self.recvd_verack = true;
                let r = step_of(vec![Reply::Ping(self.pong_nonce)], false);
                assert(r.replies@ =~= seq![Reply::Ping(self.pong_nonce)]);
                r
            },
            PeerMessage::Ping(v) => {
                let r = step_of(vec![Reply::Pong(v)], false);
                assert(r.replies@ =~= seq![Reply::Pong(v)]);
                r
            },
            PeerMessage::Pong(v) => {
                if v != self.pong_nonce {
                    return self.end_with(AddressState::ProtocolViolation, FailDetail::BadPongNonce);
                }
                if self.recvd_pong {
                    self.recvd_pong = false;
                    return self.end_with(AddressState::ProtocolViolation, FailDetail::Duplicate(Checkpoint::Pong));
                }
                if !(self.recvd_version && self.recvd_verack) {
                    return self.end_with(AddressState::ProtocolViolation, FailDetail::OutOfOrder(Checkpoint::Pong));
                }
                self.recvd_pong = true;
                let r = step_of(vec![Reply::GetAddr], false);
                assert(r.replies@ =~= seq![Reply::GetAddr]);
                r
            },
            PeerMessage::Addr { count } => self.handle_addr(count),
            PeerMessage::AddrV2 { count } => self.handle_addr(count),
            PeerMessage::Block(b) => {
                if !bytes_equal(&b, &self.challenge_block) {
                    return self.end_with(AddressState::ProtocolViolation, FailDetail::BadBlock);
                }
                if self.recvd_block {
                    self.recvd_block = false;
                    return self.end_with(AddressState::ProtocolViolation, FailDetail::Duplicate(Checkpoint::Block));
                }
                if !(self.recvd_version && self.recvd_verack && self.recvd_pong && self.recvd_addrs) {
                    return self.end_with(AddressState::ProtocolViolation, FailDetail::OutOfOrder(Checkpoint::Block));
                }
                self.recvd_block = true;
                self.done = true;
                step_of(Vec::new(), true)
            },
            PeerMessage::Inv(invs) => {
                if announces_tx(&invs) {
                    return self.end_with(AddressState::EvilNode, FailDetail::UnrequestedInvTx);
                }
                step_of(Vec::new(), false)
            },
            PeerMessage::Tx => self.end_with(AddressState::EvilNode, FailDetail::UnrequestedTx),
            PeerMessage::Unknown { command } => {
                let bad = String::from_str("gnop");
                proof {
                    reveal_strlit("gnop");
                    assert(bad@ =~= gnop());
                }
                if command == bad {
                    return self.end_with(AddressState::EvilNode, FailDetail::BadMessageType);
                }
                step_of(Vec::new(), false)
            },
            PeerMessage::Other => step_of(Vec::new(), false),
        }
    }

    /// The classification to publish when the session is over, and the
    /// service bits to record with it.
    pub fn finish(&self) -> (r: (AddressState, u64))
        ensures
            r == final_class(self@),
    {
        if self.recvd_version && self.recvd_verack && self.recvd_pong && self.recvd_addrs && self.recvd_block
            && self.fail_reason == AddressState::TimeoutDuringRequest {
            return (AddressState::Good, self.node_services);
        }
        if self.fail_reason == AddressState::TimeoutDuringRequest && self.recvd_version && self.recvd_verack {
            if !self.recvd_pong {
                return (AddressState::TimeoutAwaitingPong, 0);
            } else if !self.recvd_addrs {
                return (AddressState::TimeoutAwaitingAddr, 0);
            } else {
                return (AddressState::TimeoutAwaitingBlock, 0);
            }
        }
        (self.fail_reason, 0)
    }

    /// Why the scan ended as it did.
    pub fn detail(&self) -> (r: FailDetail)
        ensures
            r == self@.detail,
    {
        self.detail
    }

    /// The reason recorded so far.
    pub fn fail_reason(&self) -> (r: AddressState)
        ensures
            r == self@.fail_reason,
    {
        self.fail_reason
    }

    /// Whether VERSION and VERACK both arrived.
    pub fn handshake_done(&self) -> (r: (bool, bool))
        ensures
            r == (self@.recvd_version, self@.recvd_verack),
    {
        (self.recvd_version, self.recvd_verack)
    }
}

/// The delay between the starts of two consecutive scans of a batch of
/// `batch` candidates spread over `window_secs` seconds, in milliseconds.
pub fn scan_spacing_millis(window_secs: u64, batch: usize) -> (r: u64)
    requires
        batch > 0,
        window_secs * 1000 <= u64::MAX,
    ensures
        r == (window_secs * 1000) / (batch as int),
{
    window_secs * 1000 / (batch as u64)
}

/// How a finished scan is logged.
#[derive(Clone, Copy, Debug, PartialEq, Eq, Structural)]
pub enum LogLine {
    /// Not at all.
    Silent,
    /// As a timeout during the request, naming which handshake messages came.
    TimeoutDuringRequest,
    /// As a change of classification, with the detail; red when `err`.
    Change { err: bool },
}

/// The log line for a scan that moved a peer from `old_class` to
/// `new_class` with `detail`: a manual scan always logs; otherwise only a
/// change does, and a change that is not to `Good` or to a timeout logs only
/// with an error detail.
pub open spec fn log_line_of(old_class: AddressState, new_class: AddressState, manual: bool, detail: FailDetail) -> LogLine {
    if new_class == AddressState::Good {
        if manual || (old_class != AddressState::Good && !(detail is Nothing)) {
            LogLine::Change { err: detail.is_error() }
        } else {
            LogLine::Silent
        }
    } else if (manual || old_class != new_class) && new_class == AddressState::TimeoutDuringRequest {
        LogLine::TimeoutDuringRequest
    } else if manual || (old_class != new_class && detail.is_error()) {
        LogLine::Change { err: detail.is_error() }
    } else {
        LogLine::Silent
    }
}

/// Decides how a finished scan is logged.
pub fn log_line(old_class: AddressState, new_class: AddressState, manual: bool, detail: FailDetail) -> (r: LogLine)
    ensures
        r == log_line_of(old_class, new_class, manual, detail),
{
    let err = match detail {
        FailDetail::Nothing | FailDetail::Accepted => false,
        _ => true,
    };
    let no_detail = match detail {
        FailDetail::Nothing => true,
        _ => false,
    };
    if new_class == AddressState::Good {
        if manual || (old_class != AddressState::Good && !no_detail) {
            LogLine::Change { err }
        } else {
            LogLine::Silent
        }
    } else if (manual || old_class != new_class) && new_class == AddressState::TimeoutDuringRequest {
        LogLine::TimeoutDuringRequest
    } else if manual || (old_class != new_class && err) {
        LogLine::Change { err }
    } else {
        LogLine::Silent
    }
}

fn announces_tx(invs: &Vec<InvKind>) -> (r: bool)
    ensures
        r == exists|i: int| 0 <= i < invs@.len() && !(invs@[i] is Other),
{
    let mut i: usize = 0;
    while i < invs.len()
        invariant
            i <= invs@.len(),
            forall|j: int| 0 <= j < i ==> invs@[j] is Other,
        decreases invs@.len() - i,
    {
        match invs[i] {
            InvKind::Other => {},
            _ => {
                assert(!(invs@[i as int] is Other));
                return true;
            },
        }
        i += 1;
    }
    false
}

fn bytes_equal(a: &Vec<u8>, b: &Vec<u8>) -> (r: bool)
    ensures
        r == (a@ == b@),
{
    if a.len() != b.len() {
        return false;
    }
    let mut i: usize = 0;
    while i < a.len()
        invariant
            a@.len() == b@.len(),
            i <= a@.len(),
            forall|j: int| 0 <= j < i ==> a@[j] == b@[j],
        decreases a@.len() - i,
    {
        if a[i] != b[i] {
            return false;
        }
        i += 1;
    }
    assert(a@ =~= b@);
    true
}

/// A scan is classified `Good` exactly when all five checkpoints passed and
/// the last message it handled did not fail; no message ever records `Good`
/// as a fail reason, so the reason alone never yields it.
pub proof fn lemma_good_needs_every_checkpoint(s: ScanView, msg: PeerMessage, min_version: u64)
    requires
        s.fail_reason != AddressState::Good,
    ensures
        (final_class(s).0 == AddressState::Good) == (all_checkpoints(s) && s.fail_reason
            == AddressState::TimeoutDuringRequest),
        scan_step(s, msg, min_version).state.fail_reason != AddressState::Good,
{
}

/// Each checkpoint is set only by its own message in its accepted form, and
/// only once every earlier checkpoint has passed: a VERSION with a height in
/// `[challenge, challenge + 2016]`, a recent enough version, a full-node
/// service bit and a matching subversion; then a VERACK; then a PONG echoing
/// the nonce; then an ADDR or ADDRV2 of 11 to 1000 entries; then the
/// challenge block, byte for byte. So `Good` is reached only through the
/// checkpoints in that order.
pub proof fn lemma_checkpoint_sources(s: ScanView, msg: PeerMessage, min_version: u64)
    ensures
        ({
            let t = scan_step(s, msg, min_version).state;
            &&& (!s.recvd_version && t.recvd_version) ==> (msg matches PeerMessage::Version {
                start_height,
                version,
                services,
                subver_matches,
            } && s.challenge_height <= start_height <= s.challenge_height + MAX_HEIGHT_AHEAD && version
                >= min_version && full_node(services) && subver_matches)
            &&& (!s.recvd_verack && t.recvd_verack) ==> msg is Verack && s.recvd_version
            &&& (!s.recvd_pong && t.recvd_pong) ==> (msg matches PeerMessage::Pong(v) && v == s.pong_nonce)
                && s.recvd_version && s.recvd_verack
            &&& (!s.recvd_addrs && t.recvd_addrs) ==> ((msg matches PeerMessage::Addr { count } && MIN_ADDR_ENTRIES
                < count <= MAX_ADDR_ENTRIES) || (msg matches PeerMessage::AddrV2 { count } && MIN_ADDR_ENTRIES
                < count <= MAX_ADDR_ENTRIES)) && s.recvd_version && s.recvd_verack && s.recvd_pong
            &&& (!s.recvd_block && t.recvd_block) ==> (msg matches PeerMessage::Block(b) && b@
                == s.challenge_block) && s.recvd_version && s.recvd_verack && s.recvd_pong && s.recvd_addrs
        }),
{
}

/// A checkpoint message in its accepted form that arrives before an earlier
/// checkpoint has passed classifies the peer as a protocol violator and
/// ends the session.
pub proof fn lemma_out_of_order_is_violation(s: ScanView, msg: PeerMessage, min_version: u64)
    requires
        !s.done,
        match msg {
            PeerMessage::Verack => !s.recvd_verack && !s.recvd_version,
            PeerMessage::Pong(v) => v == s.pong_nonce && !s.recvd_pong && !(s.recvd_version && s.recvd_verack),
            PeerMessage::Addr { count } => MIN_ADDR_ENTRIES < count <= MAX_ADDR_ENTRIES && !s.recvd_addrs
                && !(s.recvd_version && s.recvd_verack && s.recvd_pong),
            PeerMessage::AddrV2 { count } => MIN_ADDR_ENTRIES < count <= MAX_ADDR_ENTRIES && !s.recvd_addrs
                && !(s.recvd_version && s.recvd_verack && s.recvd_pong),
            PeerMessage::Block(b) => b@ == s.challenge_block && !s.recvd_block && !(s.recvd_version
                && s.recvd_verack && s.recvd_pong && s.recvd_addrs),
            _ => false,
        },
    ensures
        scan_step(s, msg, min_version).state.fail_reason == AddressState::ProtocolViolation,
        scan_step(s, msg, min_version).state.detail is OutOfOrder,
        final_class(scan_step(s, msg, min_version).state).0 == AddressState::ProtocolViolation,
        scan_step(s, msg, min_version).end,
{
}

/// A checkpoint message that arrives again while the session runs (a
/// VERSION, VERACK, PONG or BLOCK after its checkpoint passed, or an ADDR of
/// more than ten entries after the addr checkpoint passed) classifies the
/// peer as a protocol violator and ends the session; a repeated VERSION or
/// VERACK is reported as a duplicate.
pub proof fn lemma_duplicate_is_violation(s: ScanView, msg: PeerMessage, min_version: u64)
    requires
        !s.done,
        match msg {
            PeerMessage::Version { .. } => s.recvd_version,
            PeerMessage::Verack => s.recvd_verack,
            PeerMessage::Pong(_) => s.recvd_pong,
            PeerMessage::Addr { count } => s.recvd_addrs && MIN_ADDR_ENTRIES < count,
            PeerMessage::AddrV2 { count } => s.recvd_addrs && MIN_ADDR_ENTRIES < count,
            PeerMessage::Block(_) => s.recvd_block,
            _ => false,
        },
    ensures
        scan_step(s, msg, min_version).state.fail_reason == AddressState::ProtocolViolation,
        final_class(scan_step(s, msg, min_version).state).0 == AddressState::ProtocolViolation,
        scan_step(s, msg, min_version).end,
        (msg is Version || msg is Verack) ==> scan_step(s, msg, min_version).state.detail is Duplicate,
{
}

/// Once a step has ended the session (a failure, or the challenge block
/// accepted), later messages change nothing and the classification stands.
pub proof fn lemma_ended_session_is_final(s: ScanView, msg: PeerMessage, min_version: u64, m2: PeerMessage)
    requires
        !s.done,
        scan_step(s, msg, min_version).end,
    ensures
        scan_step(scan_step(s, msg, min_version).state, m2, min_version).state == scan_step(s, msg, min_version).state,
        scan_step(scan_step(s, msg, min_version).state, m2, min_version).end,
{
}

} // verus!
