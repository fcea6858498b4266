//! The backend state machine.
//!
//! The backend owns the bytes read from the serial port that do not yet form
//! a complete frame, knows whether a port is open, and tracks the
//! application's state. The application performs the I/O: it hands each
//! query and each read to the backend and carries out the action that comes
//! back.

use vstd::prelude::*;

use crate::cobs::{decode, decode_spec, encode, encode_frame, lemma_frame_roundtrip, run_len};
use crate::query::Query;

verus! {

/// Baud rate at which the serial port is opened.
pub const BAUD_RATE: u32 = 115200;

/// Read timeout of the serial port, in milliseconds.
pub const READ_TIMEOUT_MS: u64 = 10;

/// Size of the buffer that one read of the serial port fills at most.
pub const READ_BUFFER_LEN: usize = 1024;

/// What the application is doing.
#[derive(Debug, Clone, Copy, PartialEq, Eq, Structural, PartialOrd, Ord)]
pub enum AppState {
    /// No port is open; the user picks one.
    Unselect,
    /// A port is open and its packets are logged.
    Logging,
    /// The application shuts down.
    Quit,
}

/// How to open a serial port.
pub struct PortSettings {
    pub name: String,
    pub baud_rate: u32,
    pub timeout_ms: u64,
}

/// A message that the application reports to the user.
#[derive(Debug, Clone, Copy, PartialEq, Eq, Structural)]
pub enum Notice {
    /// A request needs an open port and there is none.
    PortNotOpen,
    /// A port was to be opened while one is open.
    PortAlreadyOpen,
}

/// The work that the application carries out after the backend decided.
pub enum Action {
    /// Nothing to do.
    Nothing,
    /// Report a message.
    Report(Notice),
    /// Open the serial port with these settings, then call
    /// `HeliumBackend::port_opened` if that succeeded.
    OpenPort(PortSettings),
    /// Drop the open serial port.
    ClosePort,
    /// Write these bytes to the serial port.
    Write(Vec<u8>),
    /// Reply with the names of the available serial ports.
    ListPorts,
    /// Reply with this state.
    ReplyState(AppState),
    /// Reply with the shared sensor database.
    ReplyDataBase,
}

/// The abstract state of a backend.
pub struct BackendView {
    /// Bytes read that do not yet form a complete frame.
    pub log: Seq<u8>,
    /// Whether a serial port is open.
    pub port_open: bool,
    pub state: AppState,
}

/// The serial backend.
pub struct HeliumBackend {
    log: Vec<u8>,
    port_open: bool,
    state: AppState,
}

impl View for HeliumBackend {
    type V = BackendView;

    closed spec fn view(&self) -> BackendView {
        BackendView { log: self.log@, port_open: self.port_open, state: self.state }
    }
}

/// The packets of the complete frames at the front of `log`, in order, and the
/// bytes that remain: frames are taken while each yields a non-empty packet.
pub open spec fn drain(log: Seq<u8>) -> (Seq<Seq<u8>>, Seq<u8>)
    decreases log.len(),
{
    let z = run_len(log);
    let packet = decode_spec(log).0;
    if z < log.len() && packet.len() > 0 {
        let rest = log.skip(z + 1 as int);
        (seq![packet] + drain(rest).0, drain(rest).1)
    } else {
        (Seq::empty(), log)
    }
}

/// The contents of a list of packets.
pub open spec fn packets_view(ps: Seq<Vec<u8>>) -> Seq<Seq<u8>> {
    ps.map_values(|p: Vec<u8>| p@)
}

impl HeliumBackend {
    /// The state reflects the port: logging needs an open port, and no port is
    /// open while a port is to be selected.
    pub open spec fn wf(&self) -> bool {
        &&& self@.state == AppState::Logging ==> self@.port_open
        &&& self@.state == AppState::Unselect ==> !self@.port_open
    }

    /// A backend with no port, no buffered bytes, waiting for a port.
    pub fn new() -> (b: Self)
        ensures
            b.wf(),
            b@.log == Seq::<u8>::empty(),
            !b@.port_open,
            b@.state == AppState::Unselect,
    {
        HeliumBackend { log: Vec::new(), port_open: false, state: AppState::Unselect }
    }

    pub fn get_state(&self) -> (s: AppState)
        ensures
            s == self@.state,
    {
        self.state
    }

    /// Decides on a request to open the port `port_name`.
    pub fn open_port(&mut self, port_name: &str) -> (action: Action)
        ensures
            final(self)@ == old(self)@,
            old(self)@.port_open ==> action == Action::Report(Notice::PortAlreadyOpen),
            !old(self)@.port_open ==> (action matches Action::OpenPort(settings) && settings.name@
                == port_name@ && settings.baud_rate == BAUD_RATE && settings.timeout_ms
                == READ_TIMEOUT_MS),
    {
        if self.port_open {
            Action::Report(Notice::PortAlreadyOpen)
        } else {
            Action::OpenPort(
                PortSettings {
                    name: port_name.to_owned(),
                    baud_rate: BAUD_RATE,
                    timeout_ms: READ_TIMEOUT_MS,
                },
            )
        }
    }

    /// Records that the port asked for by `Action::OpenPort` is open.
    pub fn port_opened(&mut self)
        requires
            old(self).wf(),
        ensures
            final(self).wf(),
            final(self)@.log == old(self)@.log,
            final(self)@.port_open,
            final(self)@.state == AppState::Logging,
    {
        self.port_open = true;
        self.state = AppState::Logging;
    }

    /// Closes the port, dropping the bytes buffered from it.
    pub fn close_port(&mut self) -> (action: Action)
        requires
            old(self).wf(),
        ensures
            final(self).wf(),
            old(self)@.port_open ==> {
                &&& action == Action::ClosePort
                &&& final(self)@.log == Seq::<u8>::empty()
                &&& !final(self)@.port_open
                &&& final(self)@.state == AppState::Unselect
            },
            !old(self)@.port_open ==> action == Action::Report(Notice::PortNotOpen)
                && final(self)@ == old(self)@,
    {
        if self.port_open {
            self.port_open = false;
            self.log.clear();
            self.state = AppState::Unselect;
            Action::ClosePort
        } else {
            Action::Report(Notice::PortNotOpen)
        }
    }

    /// Frames `data` for writing to the open port.
    pub fn send(&self, data: &Vec<u8>) -> (action: Action)
        ensures
            self@.port_open ==> (action matches Action::Write(bytes) && bytes@ == encode_frame(data@)),
            !self@.port_open ==> action == Action::Report(Notice::PortNotOpen),
    {
        if self.port_open {
            Action::Write(encode(data.as_slice()))
        } else {
            Action::Report(Notice::PortNotOpen)
        }
    }

    /// Decides on a request of the user interface.
    pub fn update(&mut self, query: Query) -> (action: Action)
        requires
            old(self).wf(),
        ensures
            final(self).wf(),
            match query {
                Query::OpenPort(name) => {
                    &&& final(self)@ == old(self)@
                    &&& old(self)@.port_open ==> action == Action::Report(Notice::PortAlreadyOpen)
                    &&& !old(self)@.port_open ==> (action matches Action::OpenPort(settings)
                        && settings.name@ == name@ && settings.baud_rate == BAUD_RATE
                        && settings.timeout_ms == READ_TIMEOUT_MS)
                },
                Query::ClosePort => {
                    &&& old(self)@.port_open ==> {
                        &&& action == Action::ClosePort
                        &&& final(self)@.log == Seq::<u8>::empty()
                        &&& !final(self)@.port_open
                        &&& final(self)@.state == AppState::Unselect
                    }
                    &&& !old(self)@.port_open ==> action == Action::Report(Notice::PortNotOpen)
                        && final(self)@ == old(self)@
                },
                Query::SendData(data) => {
                    &&& final(self)@ == old(self)@
                    &&& old(self)@.port_open ==> (action matches Action::Write(bytes) && bytes@
                        == encode_frame(data@))
                    &&& !old(self)@.port_open ==> action == Action::Report(Notice::PortNotOpen)
                },
                Query::GetDataBase => final(self)@ == old(self)@ && action == Action::ReplyDataBase,
                Query::GetSerialPort => final(self)@ == old(self)@ && action == Action::ListPorts,
                Query::GetAppState => final(self)@ == old(self)@ && action == Action::ReplyState(
                    old(self)@.state,
                ),
                Query::Quit => {
                    &&& action == Action::Nothing
                    &&& final(self)@.state == AppState::Quit
                    &&& final(self)@.log == old(self)@.log
                    &&& final(self)@.port_open == old(self)@.port_open
                },
            },
    {
        match query {
            Query::OpenPort(name) => self.open_port(name.as_str()),
            Query::ClosePort => self.close_port(),
            Query::SendData(data) => self.send(&data),
            Query::GetDataBase => Action::ReplyDataBase,
            Query::GetSerialPort => Action::ListPorts,
            Query::GetAppState => Action::ReplyState(self.get_state()),
            Query::Quit => {
                self.state = AppState::Quit;
                Action::Nothing
            },
        }
    }

    /// Takes in `bytes` read from the port and returns the packets of the
    /// frames that are now complete, in order; the bytes after the last of
    /// them stay buffered. An empty read changes nothing.
    pub fn receive(&mut self, bytes: &[u8]) -> (packets: Vec<Vec<u8>>)
        requires
            old(self).wf(),
        ensures
            final(self).wf(),
            final(self)@.port_open == old(self)@.port_open,
            final(self)@.state == old(self)@.state,
            bytes@.len() == 0 ==> packets@.len() == 0 && final(self)@.log == old(self)@.log,
            bytes@.len() > 0 ==> (packets_view(packets@), final(self)@.log) == drain(
                old(self)@.log + bytes@,
            ),
    {
        if bytes.len() == 0 {
            return Vec::new();
        }
        crate::cobs::push_range(&mut self.log, bytes, 0, bytes.len());
        assert(bytes@.subrange(0, bytes@.len() as int) =~= bytes@);
        let ghost all = self.log@;
        let mut packets: Vec<Vec<u8>> = Vec::new();
        loop
            invariant_except_break
                self.wf(),
                self@.port_open == old(self)@.port_open,
                self@.state == old(self)@.state,
                drain(all) == (packets_view(packets@) + drain(self.log@).0, drain(self.log@).1),
            ensures
                self.wf(),
                self@.port_open == old(self)@.port_open,
                self@.state == old(self)@.state,
                drain(all) == (packets_view(packets@), self.log@),
            decreases self.log@.len(),
        {
            let ghost cur = self.log@;
            let (decoded, rest) = decode(self.log.as_slice());
            if decoded.len() == 0 {
                assert(packets_view(packets@) + Seq::<Seq<u8>>::empty() =~= packets_view(
                    packets@,
                ));
                break;
            }
            let next = vstd::slice::slice_to_vec(rest);
            let ghost d = decoded@;
            assert(d == decode_spec(cur).0 && rest@ == decode_spec(cur).1);
            assert(d.len() > 0);
            proof { crate::cobs::lemma_run_len(cur); }
            assert(run_len(cur) < cur.len());
            assert(next@ == cur.skip(run_len(cur) + 1 as int));
            assert(drain(cur).0 == seq![d] + drain(next@).0);
            assert(drain(cur).1 == drain(next@).1);
            let ghost prev = packets@;
            packets.push(decoded);
            self.log = next;
            assert(packets_view(packets@) =~= packets_view(prev).push(d));
            assert(packets_view(prev) + drain(cur).0 =~= packets_view(packets@) + drain(
                self.log@,
            ).0);
        }
        packets
    }

    /// Handles a failed read of the port: a timeout changes nothing; any other
    /// error means the port is gone. Returns whether the port is to be dropped.
    pub fn read_failed(&mut self, timed_out: bool) -> (drop_port: bool)
        requires
            old(self).wf(),
        ensures
            final(self).wf(),
            drop_port == !timed_out,
            timed_out ==> final(self)@ == old(self)@,
            !timed_out ==> {
                &&& final(self)@.log == old(self)@.log
                &&& !final(self)@.port_open
                &&& final(self)@.state == AppState::Unselect
            },
    {
        if timed_out {
            false
        } else {
            self.port_open = false;
            self.state = AppState::Unselect;
            true
        }
    }
}


/// The frames that carry `ps`, one after another.
pub open spec fn frames(ps: Seq<Seq<u8>>) -> Seq<u8>
    decreases ps.len(),
{
    if ps.len() == 0 {
        Seq::empty()
    } else {
        encode_frame(ps[0]) + frames(ps.drop_first())
    }
}

/// Law: bytes that follow the frames of non-empty packets are drained as
/// they would be alone, after the packets come out in order.
pub proof fn lemma_drain_frames(ps: Seq<Seq<u8>>, tail: Seq<u8>)
    requires
        forall|i: int| 0 <= i < ps.len() ==> #[trigger] ps[i].len() > 0,
    ensures
        drain(frames(ps) + tail) == (ps + drain(tail).0, drain(tail).1),
    decreases ps.len(),
{
    if ps.len() == 0 {
        assert(frames(ps) + tail =~= tail);
        assert(ps + drain(tail).0 =~= drain(tail).0);
    } else {
        let rest = ps.drop_first();
        assert forall|i: int| 0 <= i < rest.len() implies #[trigger] rest[i].len() > 0 by {
            assert(rest[i] == ps[i + 1]);
        }
        lemma_drain_frames(rest, tail);
        let more = frames(rest) + tail;
        let buf = frames(ps) + tail;
        assert(buf =~= encode_frame(ps[0]) + more);
        lemma_frame_roundtrip(ps[0], more);
        crate::cobs::lemma_run_len(buf);
        assert(ps[0].len() > 0);
        assert(run_len(buf) < buf.len());
        assert(buf.skip(run_len(buf) + 1 as int) == more);
        assert(ps + drain(tail).0 =~= seq![ps[0]] + (rest + drain(tail).0));
    }
}

/// Law: what a backend sends is what a backend receives. The frame written
/// for non-empty `data`, read into an empty buffer, yields exactly `data` and
/// leaves nothing buffered.
pub proof fn lemma_sent_is_received(data: Seq<u8>)
    requires
        data.len() > 0,
    ensures
        drain(encode_frame(data)) == (seq![data], Seq::<u8>::empty()),
{
    let ps = seq![data];
    assert(frames(ps.drop_first()) =~= Seq::<u8>::empty());
    assert(frames(ps) =~= encode_frame(data));
    lemma_drain_frames(ps, Seq::empty());
    assert(encode_frame(data) + Seq::<u8>::empty() =~= encode_frame(data));
    assert(ps + Seq::<Seq<u8>>::empty() =~= ps);
}

/// Law: how the byte stream is cut into reads does not matter. Draining `s`
/// and then the remainder followed by `b` gives the packets and the remainder
/// that draining `s + b` at once gives.
pub proof fn lemma_drain_append(s: Seq<u8>, b: Seq<u8>)
    ensures
        drain(s + b) == (drain(s).0 + drain(drain(s).1 + b).0, drain(drain(s).1 + b).1),
    decreases s.len(),
{
    crate::cobs::lemma_run_len(s);
    let z = run_len(s);
    let sb = s + b;
    if z < s.len() {
        assert forall|j: int| 0 <= j < z implies sb[j] != 0 by {
            assert(sb[j] == s[j]);
        }
        assert(sb[z as int] == s[z as int]);
        crate::cobs::lemma_run_len_exact(sb, z);
        assert(sb.take(z as int) =~= s.take(z as int));
        assert(sb.skip(z + 1 as int) =~= s.skip(z + 1 as int) + b);
        crate::cobs::lemma_run_len(sb);
        if decode_spec(s).0.len() > 0 {
            lemma_drain_append(s.skip(z + 1 as int), b);
            let r = s.skip(z + 1 as int);
            assert(drain(s).1 == drain(r).1);
            assert(seq![decode_spec(s).0] + (drain(r).0 + drain(drain(r).1 + b).0) =~= (seq![
                decode_spec(s).0,
            ] + drain(r).0) + drain(drain(r).1 + b).0);
        } else {
            assert(drain(s).0 + drain(drain(s).1 + b).0 =~= drain(s + b).0);
        }
    } else {
        assert(drain(s).1 == s);
        assert(drain(s).0 + drain(drain(s).1 + b).0 =~= drain(s + b).0);
    }
}

} // verus!
