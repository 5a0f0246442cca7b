//! The helper process that spawns programs, as far as the compositor decides
//! anything about it: which messages it is sent, how a message is framed on the
//! socket, and what becomes of the log lines that come back.

use vstd::prelude::*;

verus! {

/// Why the helper process could not be started, with the error number of the
/// system call that failed.
#[derive(Copy, Clone, Debug, PartialEq, Eq, Structural)]
pub enum ForkerError {
    Socketpair(i32),
    Fork(i32),
}

impl ForkerError {
    pub open spec fn spec_errno(self) -> i32 {
        match self {
            ForkerError::Socketpair(e) => e,
            ForkerError::Fork(e) => e,
        }
    }

    /// The error number of the system call that failed.
    pub fn errno(&self) -> (r: i32)
        ensures
            r == self.spec_errno(),
    {
        match self {
            ForkerError::Socketpair(e) => *e,
            ForkerError::Fork(e) => *e,
        }
    }
}

/// How severe a log line is.
#[derive(Copy, Clone, Debug, PartialEq, Eq, Structural)]
pub enum Level {
    Error,
    Warn,
    Info,
    Debug,
    Trace,
}

impl Level {
    /// The level that a number from the helper process stands for. A number that
    /// stands for no level counts as an error.
    pub open spec fn spec_from_usize(level: usize) -> Level {
        if level == 2 {
            Level::Warn
        } else if level == 3 {
            Level::Info
        } else if level == 4 {
            Level::Debug
        } else if level == 5 {
            Level::Trace
        } else {
            Level::Error
        }
    }

    pub open spec fn spec_to_usize(self) -> usize {
        match self {
            Level::Error => 1,
            Level::Warn => 2,
            Level::Info => 3,
            Level::Debug => 4,
            Level::Trace => 5,
        }
    }

    pub fn from_usize(level: usize) -> (r: Level)
        ensures
            r == Level::spec_from_usize(level),
    {
        match level {
            1 => Level::Error,
            2 => Level::Warn,
            3 => Level::Info,
            4 => Level::Debug,
            5 => Level::Trace,
            _ => Level::Error,
        }
    }

    pub fn to_usize(self) -> (r: usize)
        ensures
            r == self.spec_to_usize(),
    {
        match self {
            Level::Error => 1,
            Level::Warn => 2,
            Level::Info => 3,
            Level::Debug => 4,
            Level::Trace => 5,
        }
    }
}

/// The number of a level stands for that level.
pub proof fn lemma_level_round_trip(level: Level)
    ensures
        Level::spec_from_usize(level.spec_to_usize()) == level,
{
}

/// A message from the compositor to the helper process.
#[derive(Debug)]
pub enum ServerMessage {
    SetEnv { var: Vec<u8>, val: Vec<u8> },
    Spawn { prog: String, args: Vec<String>, env: Vec<(String, String)> },
}

/// A message from the helper process to the compositor.
#[derive(Debug)]
pub enum ForkerMessage {
    Log { level: usize, msg: String },
}

/// The compositor's end of the connection to the helper process.
#[derive(Debug)]
pub struct ForkerProxy {
    pub pid: i32,
    /// The messages that wait to be sent, oldest first.
    pub outgoing: Vec<ServerMessage>,
}

impl ForkerProxy {
    pub fn new(pid: i32) -> (r: ForkerProxy)
        ensures
            r.pid == pid,
            r.outgoing@.len() == 0,
    {
        ForkerProxy { pid, outgoing: Vec::new() }
    }

    /// Queues the request to set a variable in the environment of the helper process.
    pub fn setenv(&mut self, key: Vec<u8>, val: Vec<u8>)
        ensures
            final(self).pid == old(self).pid,
            final(self).outgoing@ == old(self).outgoing@.push(
                ServerMessage::SetEnv { var: key, val },
            ),
    {
        self.outgoing.push(ServerMessage::SetEnv { var: key, val });
    }

    /// Queues the request to spawn a program.
    pub fn spawn(&mut self, prog: String, args: Vec<String>, env: Vec<(String, String)>)
        ensures
            final(self).pid == old(self).pid,
            final(self).outgoing@ == old(self).outgoing@.push(
                ServerMessage::Spawn { prog, args, env },
            ),
    {
        self.outgoing.push(ServerMessage::Spawn { prog, args, env });
    }

    /// The message that is sent next, if one waits.
    pub fn pop(&mut self) -> (r: Option<ServerMessage>)
        ensures
            final(self).pid == old(self).pid,
            old(self).outgoing@.len() == 0 ==> r.is_none() && final(self).outgoing@.len() == 0,
            old(self).outgoing@.len() > 0 ==> r == Some(old(self).outgoing@[0])
                && final(self).outgoing@ == old(self).outgoing@.subrange(
                1,
                old(self).outgoing@.len() as int,
            ),
    {
        if self.outgoing.len() == 0 {
            None
        } else {
            let m = self.outgoing.remove(0);
            assert(self.outgoing@ =~= old(self).outgoing@.subrange(
                1,
                old(self).outgoing@.len() as int,
            ));
            Some(m)
        }
    }

    /// What becomes of a message from the helper process: a log line and its level.
    pub fn handle_msg(&self, msg: ForkerMessage) -> (r: (Level, String))
        ensures
            r.0 == Level::spec_from_usize(msg->level),
            r.1 == msg->msg,
    {
        match msg {
            ForkerMessage::Log { level, msg } => (ForkerProxy::handle_log(level), msg),
        }
    }

    /// The level at which a line from the helper process is logged.
    pub fn handle_log(level: usize) -> (r: Level)
        ensures
            r == Level::spec_from_usize(level),
    {
        Level::from_usize(level)
    }
}

/// The number of bytes in front of a message that give its length.
pub const HEADER_LEN: usize = 8;

/// The eight bytes of a length, the lowest first.
pub open spec fn length_bytes(len: u64) -> Seq<u8> {
    Seq::new(8, |i: int| ((len as int / pow256(i)) % 256) as u8)
}

pub open spec fn pow256(i: int) -> int
    decreases i,
{
    if i <= 0 {
        1
    } else {
        256 * pow256(i - 1)
    }
}

/// The length that eight bytes give, the lowest first.
pub open spec fn length_of(bytes: Seq<u8>, n: int) -> int
    decreases n,
{
    if n <= 0 || n > bytes.len() {
        0
    } else {
        length_of(bytes, n - 1) + bytes[n - 1] as int * pow256(n - 1)
    }
}

/// A message as it goes over the socket: its length in eight bytes, then the message.
pub open spec fn framed(payload: Seq<u8>) -> Seq<u8> {
    length_bytes(payload.len() as u64) + payload
}

/// Puts the length of a message in front of it.
pub fn frame(payload: &Vec<u8>) -> (r: Vec<u8>)
    ensures
        r@ == framed(payload@),
        r@.len() == payload@.len() + 8,
{
    let mut out: Vec<u8> = Vec::new();
    let len: u64 = payload.len() as u64;
    let mut rest: u64 = len;
    let mut i: usize = 0;
    proof {
        assert(pow256(0) == 1);
    }
    while i < 8
        invariant
            0 <= i <= 8,
            out@.len() == i,
            rest as int == len as int / pow256(i as int),
            forall|j: int| 0 <= j < i ==> out@[j] == length_bytes(len)[j],
        decreases 8 - i,
    {
        out.push((rest % 256) as u8);
        proof {
            let p = pow256(i as int);
            assert(pow256(i as int + 1) == 256 * p);
            lemma_pow256_positive(i as int);
            assert((len as int / p) / 256 == len as int / (256 * p)) by (nonlinear_arith)
                requires
                    p > 0,
                    len >= 0,
            ;
        }
        rest = rest / 256;
        i += 1;
    }
    let mut k: usize = 0;
    while k < payload.len()
        invariant
            0 <= k <= payload.len(),
            out@.len() == 8 + k,
            forall|j: int| 0 <= j < 8 ==> out@[j] == length_bytes(len)[j],
            forall|j: int| 0 <= j < k ==> out@[8 + j] == payload@[j],
        decreases payload.len() - k,
    {
        out.push(payload[k]);
        k += 1;
    }
    assert(out@ =~= framed(payload@));
    out
}

pub proof fn lemma_pow256_positive(i: int)
    ensures
        pow256(i) > 0,
    decreases i,
{
    if i > 0 {
        lemma_pow256_positive(i - 1);
    }
}

/// The length that the first eight bytes of what came over the socket give, if
/// eight bytes are there.
pub fn frame_len(header: &Vec<u8>) -> (r: Option<u64>)
    ensures
        r.is_some() <==> header@.len() >= 8,
        r.is_some() ==> r.unwrap() as int == length_of(header@, 8),
{
    if header.len() < 8 {
        return None;
    }
    let mut len: u64 = 0;
    let mut i: usize = 8;
    proof {
        lemma_length_bound(header@, 8);
    }
    while i > 0
        invariant
            0 <= i <= 8,
            header@.len() >= 8,
            len as int * pow256(i as int) + length_of(header@, i as int) == length_of(header@, 8),
            length_of(header@, 8) < pow256(8),
            0 <= len as int,
            len as int * pow256(i as int) < pow256(8),
        decreases i,
    {
        proof {
            let p = pow256(i as int - 1);
            lemma_pow256_positive(i as int - 1);
            lemma_length_bound(header@, i as int - 1);
            assert(pow256(i as int) == 256 * p);
            lemma_pow256_values();
            let b = header@[i as int - 1] as int;
            assert((len as int * 256 + b) * p == len as int * (256 * p) + b * p) by (nonlinear_arith);
            assert(len as int * 256 + b < 0x1_0000_0000_0000_0000) by (nonlinear_arith)
                requires
                    (len as int * 256 + b) * p + length_of(header@, i as int - 1) < pow256(8),
                    length_of(header@, i as int - 1) >= 0,
                    p >= 1,
                    pow256(8) == 0x1_0000_0000_0000_0000,
                    len >= 0,
                    b >= 0,
            ;
        }
        len = len * 256 + header[i - 1] as u64;
        i -= 1;
    }
    proof {
        assert(pow256(0) == 1);
    }
    Some(len)
}

pub proof fn lemma_pow256_values()
    ensures
        pow256(8) == 0x1_0000_0000_0000_0000,
{
    reveal_with_fuel(pow256, 10);
}

pub proof fn lemma_length_bound(bytes: Seq<u8>, n: int)
    requires
        0 <= n <= bytes.len(),
    ensures
        0 <= length_of(bytes, n) < pow256(n),
    decreases n,
{
    if n > 0 {
        lemma_length_bound(bytes, n - 1);
        lemma_pow256_positive(n - 1);
        let p = pow256(n - 1);
        let b = bytes[n - 1] as int;
        assert(b * p <= 255 * p) by (nonlinear_arith)
            requires
                0 <= b <= 255,
                p > 0,
        ;
    }
}

/// The first `k` bytes of a length give the length up to the `k`th power of 256.
pub proof fn lemma_length_digits(len: u64, bytes: Seq<u8>, k: int)
    requires
        0 <= k <= 8,
        bytes.len() >= 8,
        forall|i: int| 0 <= i < 8 ==> bytes[i] == length_bytes(len)[i],
    ensures
        length_of(bytes, k) == len as int % pow256(k),
    decreases k,
{
    if k > 0 {
        lemma_length_digits(len, bytes, k - 1);
        let p = pow256(k - 1);
        lemma_pow256_positive(k - 1);
        assert(pow256(k) == 256 * p);
        assert(bytes[k - 1] == length_bytes(len)[k - 1]);
        vstd::arithmetic::div_mod::lemma_mod_breakdown(len as int, p, 256);
        assert(p * 256 == 256 * p) by (nonlinear_arith);
        assert(p * ((len as int / p) % 256) == ((len as int / p) % 256) * p) by (nonlinear_arith);
    } else {
        assert(pow256(0) == 1);
    }
}

/// The length that is read from the front of a framed message is the length of the
/// message.
pub proof fn lemma_frame_round_trip(payload: Seq<u8>)
    requires
        payload.len() <= u64::MAX,
    ensures
        length_of(framed(payload), 8) == payload.len(),
        framed(payload).subrange(8, framed(payload).len() as int) == payload,
{
    let len = payload.len() as u64;
    let bytes = framed(payload);
    lemma_length_digits(len, bytes, 8);
    lemma_pow256_values();
    assert(bytes.subrange(8, bytes.len() as int) =~= payload);
}

} // verus!
