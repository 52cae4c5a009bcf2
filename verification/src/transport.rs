//! What the transport layer decides without touching a socket: the ports, how
//! an address is written, how a received packet is stamped with its origin, and
//! when a connection attempt is given up.

use crate::packet::{Packet, PacketType, PacketView};
use vstd::prelude::*;
use vstd::string::StringExecFns;

verus! {

/// The port on which every node listens for control packets.
pub const TCP_PORT: u16 = 8080;

/// The port of every node's datagram socket, which carries the pieces.
pub const UDP_PORT: u16 = 8081;

/// Number of packets that a queue between two tasks holds before its producer
/// has to wait.
pub const CHANNEL_LIMIT: usize = 32;

/// Seconds that a probed peer has to answer before it counts as unanswered.
pub const PROBE_TIMEOUT_SECS: u64 = 5;

/// Seconds without a delivery after which a download asks again for the
/// pieces that it still misses.
pub const ROUND_TIMEOUT_SECS: u64 = 5;

/// Number of times the transport tries to connect for one outgoing packet
/// before it gives that packet up.
pub const CONNECT_ATTEMPTS: u32 = 8;

/// The two channels between nodes.
#[derive(Clone, Copy, Debug, PartialEq, Eq, Structural)]
pub enum Channel {
    /// Reliable and connection-oriented; carries everything but pieces.
    Control,
    /// Datagrams, without any promise of arrival or order; carries the pieces.
    Data,
}

/// The channel that packets of type `packet_type` travel on: the data channel
/// for piece deliveries and for nothing else.
pub open spec fn spec_channel(packet_type: PacketType) -> Channel {
    if packet_type == PacketType::PieceDelivery {
        Channel::Data
    } else {
        Channel::Control
    }
}

/// The channel on which a packet of type `packet_type` is sent.
pub fn channel_for(packet_type: PacketType) -> (channel: Channel)
    ensures
        channel == spec_channel(packet_type),
{
    match packet_type {
        PacketType::PieceDelivery => Channel::Data,
        _ => Channel::Control,
    }
}

/// The port of a channel.
pub fn channel_port(channel: Channel) -> (port: u16)
    ensures
        port == match channel {
            Channel::Control => TCP_PORT,
            Channel::Data => UDP_PORT,
        },
{
    match channel {
        Channel::Control => TCP_PORT,
        Channel::Data => UDP_PORT,
    }
}

/// How many connection attempts one outgoing packet has had, and how many it
/// may have. Giving up is fatal to that one packet and to nothing else.
#[derive(Clone, Copy, Debug)]
pub struct ConnectBudget {
    limit: u32,
    failed: u32,
}

/// A `ConnectBudget` as a mathematical value.
pub struct ConnectBudgetView {
    /// Number of attempts allowed.
    pub limit: nat,
    /// Number of attempts that failed, never more than `limit`.
    pub failed: nat,
}

impl ConnectBudgetView {
    /// Whether another attempt is allowed.
    pub open spec fn has_attempt_left(self) -> bool {
        self.failed < self.limit
    }

    /// The budget after one more attempt failed.
    pub open spec fn after_failure(self) -> ConnectBudgetView {
        if self.failed < self.limit {
            ConnectBudgetView { failed: self.failed + 1, ..self }
        } else {
            self
        }
    }

    /// The budget after `count` more attempts failed.
    pub open spec fn after_failures(self, count: nat) -> ConnectBudgetView
        decreases count,
    {
        if count == 0 {
            self
        } else {
            self.after_failures((count - 1) as nat).after_failure()
        }
    }
}

impl View for ConnectBudget {
    type V = ConnectBudgetView;

    closed spec fn view(&self) -> ConnectBudgetView {
        ConnectBudgetView { limit: self.limit as nat, failed: self.failed as nat }
    }
}

impl ConnectBudget {
    /// What holds of every budget: no more failures are on record than
    /// attempts are allowed.
    #[verifier::type_invariant]
    spec fn within_limit(&self) -> bool {
        self.failed <= self.limit
    }

    /// A budget of `limit` attempts, none of them used.
    pub fn new(limit: u32) -> (budget: Self)
        ensures
            budget@ == (ConnectBudgetView { limit: limit as nat, failed: 0 }),
    {
        ConnectBudget { limit, failed: 0 }
    }

    /// Whether another attempt is allowed.
    pub fn may_attempt(&self) -> (allowed: bool)
        ensures
            allowed == self@.has_attempt_left(),
    {
        self.failed < self.limit
    }

    /// Puts a failed attempt on record and says whether to try again.
    pub fn record_failure(&mut self) -> (again: bool)
        ensures
            final(self)@ == old(self)@.after_failure(),
            final(self)@.failed <= final(self)@.limit,
            again == final(self)@.has_attempt_left(),
    {
        proof {
            use_type_invariant(&*self);
        }
        if self.failed < self.limit {
            self.failed = self.failed + 1;
        }
        self.failed < self.limit
    }
}

/// The attempts are bounded: a fresh budget allows another attempt after
/// `count` failures exactly while `count` is below its limit, so the
/// `limit`-th failure is the last.
pub proof fn lemma_attempts_are_bounded(limit: nat, count: nat)
    ensures
        (ConnectBudgetView { limit, failed: 0 }).after_failures(count).limit == limit,
        (ConnectBudgetView { limit, failed: 0 }).after_failures(count).failed == if count < limit {
            count
        } else {
            limit
        },
        (ConnectBudgetView { limit, failed: 0 }).after_failures(count).has_attempt_left() <==> count < limit,
    decreases count,
{
    if count > 0 {
        lemma_attempts_are_bounded(limit, (count - 1) as nat);
    }
}

/// The character of the decimal digit `digit`.
pub open spec fn spec_digit(digit: nat) -> char {
    if digit == 0 {
        '0'
    } else if digit == 1 {
        '1'
    } else if digit == 2 {
        '2'
    } else if digit == 3 {
        '3'
    } else if digit == 4 {
        '4'
    } else if digit == 5 {
        '5'
    } else if digit == 6 {
        '6'
    } else if digit == 7 {
        '7'
    } else if digit == 8 {
        '8'
    } else {
        '9'
    }
}

/// `number` written in decimal, without sign and without leading zeros.
pub open spec fn spec_decimal(number: nat) -> Seq<char>
    decreases number,
{
    if number < 10 {
        seq![spec_digit(number)]
    } else {
        spec_decimal(number / 10).push(spec_digit(number % 10))
    }
}

/// The address of `port` on `host`: the host, a colon, the port in decimal.
pub open spec fn spec_address(host: Seq<char>, port: u16) -> Seq<char> {
    host + seq![':'] + spec_decimal(port as nat)
}

fn digit_text(digit: u64) -> (text: &'static str)
    requires
        digit < 10,
    ensures
        text@ == seq![spec_digit(digit as nat)],
{
    proof {
        reveal_strlit("0");
        reveal_strlit("1");
        reveal_strlit("2");
        reveal_strlit("3");
        reveal_strlit("4");
        reveal_strlit("5");
        reveal_strlit("6");
        reveal_strlit("7");
        reveal_strlit("8");
        reveal_strlit("9");
    }
    let text = if digit == 0 {
        "0"
    } else if digit == 1 {
        "1"
    } else if digit == 2 {
        "2"
    } else if digit == 3 {
        "3"
    } else if digit == 4 {
        "4"
    } else if digit == 5 {
        "5"
    } else if digit == 6 {
        "6"
    } else if digit == 7 {
        "7"
    } else if digit == 8 {
        "8"
    } else {
        "9"
    };
    assert(text@ =~= seq![spec_digit(digit as nat)]);
    text
}

/// Writes `number` in decimal.
pub fn decimal(number: u64) -> (text: String)
    ensures
        text@ == spec_decimal(number as nat),
    decreases number,
{
    if number < 10 {
        String::from_str(digit_text(number))
    } else {
        let mut text = decimal(number / 10);
        text.append(digit_text(number % 10));
        assert(text@ =~= spec_decimal(number as nat));
        text
    }
}

/// The address of `port` on `host`, as the transport dials it.
pub fn peer_address(host: &str, port: u16) -> (address: String)
    ensures
        address@ == spec_address(host@, port),
{
    proof {
        reveal_strlit(":");
    }
    let mut address = String::from_str(host);
    address.append(":");
    let digits = decimal(port as u64);
    address.append(digits.as_str());
    assert(address@ =~= spec_address(host@, port));
    address
}

/// Stamps a packet that was just received with the address it came from. The
/// sender's own claim, if any, is overwritten; nothing else changes.
pub fn stamp_source(packet: Packet, host: &str, port: u16) -> (stamped: Packet)
    ensures
        stamped@ == (PacketView { from_ip: spec_address(host@, port), ..packet@ }),
{
    let Packet { packet_type, thread_id, dest_ip, from_ip: _, content } = packet;
    Packet { packet_type, thread_id, dest_ip, from_ip: peer_address(host, port), content }
}

} // verus!
