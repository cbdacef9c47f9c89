//! The wire format between the main program and the sandbox parent.
//!
//! A request is a 512-byte record: the sandbox identifier, zero padded, in
//! bytes `[0, 64)`, and a NUL-terminated network-namespace path in bytes
//! `[64, 512)`, an empty path meaning that no namespace is joined. A response
//! is a signed 32-bit process id in little-endian byte order.
use vstd::arithmetic::div_mod::lemma_fundamental_div_mod;
use vstd::prelude::*;

verus! {

/// Number of bytes in a request frame.
pub const REQUEST_LEN: usize = 512;

/// Number of bytes reserved for the sandbox identifier.
pub const ID_LEN: usize = 64;

/// Longest network-namespace path that a request can carry.
pub const MAX_PATH_LEN: usize = 446;

/// Number of bytes in a response frame.
pub const PID_LEN: usize = 4;

/// The unsigned value of four bytes read in little-endian order.
pub open spec fn le_u32(b: Seq<u8>) -> int {
    b[0] + 256 * b[1] + 65536 * b[2] + 16777216 * b[3]
}

/// The process id that four little-endian bytes hold, in two's complement.
pub open spec fn pid_of_le_bytes(b: Seq<u8>) -> int {
    let u = le_u32(b);
    if u >= 0x8000_0000 {
        u - 0x1_0000_0000
    } else {
        u
    }
}

/// The four little-endian bytes of a process id, in two's complement.
pub open spec fn le_bytes_of_pid(pid: i32) -> Seq<u8> {
    let u: int = if pid < 0 { pid + 0x1_0000_0000 } else { pid as int };
    seq![
        (u % 256) as u8,
        ((u / 256) % 256) as u8,
        (((u / 256) / 256) % 256) as u8,
        (((u / 256) / 256) / 256) as u8,
    ]
}

proof fn lemma_split_byte(x: int)
    requires
        x >= 0,
    ensures
        x == 256 * (x / 256) + x % 256,
        0 <= x % 256 < 256,
        x / 256 >= 0,
{
    lemma_fundamental_div_mod(x, 256);
}

/// Encoding a process id and reading it back gives the same process id.
pub proof fn lemma_pid_round_trip(pid: i32)
    ensures
        le_bytes_of_pid(pid).len() == PID_LEN,
        pid_of_le_bytes(le_bytes_of_pid(pid)) == pid,
{
    let u: int = if pid < 0 { pid + 0x1_0000_0000 } else { pid as int };
    let q1 = u / 256;
    let q2 = q1 / 256;
    let q3 = q2 / 256;
    lemma_split_byte(u);
    lemma_split_byte(q1);
    lemma_split_byte(q2);
    lemma_split_byte(q3);
    assert(q3 < 256);
    let b = le_bytes_of_pid(pid);
    assert(b[0] == u % 256);
    assert(b[1] == q1 % 256);
    assert(b[2] == q2 % 256);
    assert(b[3] == q3);
    assert(le_u32(b) == u);
}

/// Reads a response frame: the process id held by four little-endian bytes.
pub fn decode_pid(b: &[u8]) -> (r: i32)
    requires
        b@.len() == PID_LEN,
    ensures
        r == pid_of_le_bytes(b@),
{
    let u: i64 = b[0] as i64 + 256 * (b[1] as i64) + 65536 * (b[2] as i64) + 16777216 * (
    b[3] as i64);
    if u >= 0x8000_0000 {
        (u - 0x1_0000_0000) as i32
    } else {
        u as i32
    }
}

/// Writes a response frame: the four little-endian bytes of a process id.
pub fn encode_pid(pid: i32) -> (r: Vec<u8>)
    ensures
        r@ == le_bytes_of_pid(pid),
        r@.len() == PID_LEN,
        pid_of_le_bytes(r@) == pid,
{
    proof {
        lemma_pid_round_trip(pid);
    }
    let u: i64 = if pid < 0 {
        pid as i64 + 0x1_0000_0000
    } else {
        pid as i64
    };
    let q1: i64 = u / 256;
    let q2: i64 = q1 / 256;
    let q3: i64 = q2 / 256;
    let mut r: Vec<u8> = Vec::new();
    r.push((u % 256) as u8);
    r.push((q1 % 256) as u8);
    r.push((q2 % 256) as u8);
    r.push((q3 % 256) as u8);
    proof {
        lemma_split_byte(u as int);
        lemma_split_byte(q1 as int);
        lemma_split_byte(q2 as int);
        lemma_split_byte(q3 as int);
        assert(q3 < 256);
        assert(r@ =~= le_bytes_of_pid(pid));
    }
    r
}


/// Why a request could not be framed.
#[derive(Debug, Clone, Copy, PartialEq, Eq, Structural)]
pub enum FrameError {
    /// The identifier is longer than its 64-byte region.
    IdTooLong,
    /// The identifier holds a NUL byte, which padding could not be told from.
    NulInId,
    /// The path does not fit, with its terminating NUL, in its region.
    PathTooLong,
    /// The path holds a NUL byte, which would end it early.
    NulInPath,
}

/// The fields of a request frame.
pub struct SandboxRequest {
    /// The sandbox identifier, without its padding.
    pub id: Vec<u8>,
    /// The network-namespace path, empty when no namespace is joined.
    pub netns: Vec<u8>,
}

/// `n` zero bytes.
pub open spec fn zeros(n: nat) -> Seq<u8> {
    Seq::new(n, |i: int| 0u8)
}

/// Whether `s` holds a NUL byte.
pub open spec fn has_nul(s: Seq<u8>) -> bool {
    exists|i: int| 0 <= i < s.len() && s[i] == 0
}

/// `r` is what a C string stored in `s` reads as: the bytes of `s` up to its
/// first NUL byte, or all of `s` when it holds none.
pub open spec fn is_cstr_prefix(r: Seq<u8>, s: Seq<u8>) -> bool {
    &&& r.len() <= s.len()
    &&& forall|i: int| 0 <= i < r.len() ==> r[i] == s[i] && r[i] != 0
    &&& r.len() < s.len() ==> s[r.len() as int] == 0
}

/// Whether a request with these fields can be framed.
pub open spec fn request_fits(id: Seq<u8>, netns: Seq<u8>) -> bool {
    &&& id.len() <= ID_LEN
    &&& !has_nul(id)
    &&& netns.len() <= MAX_PATH_LEN
    &&& !has_nul(netns)
}

/// The request frame for an identifier and a path that fit.
pub open spec fn request_frame(id: Seq<u8>, netns: Seq<u8>) -> Seq<u8> {
    id + zeros((ID_LEN - id.len()) as nat) + netns + zeros(
        (REQUEST_LEN - ID_LEN - netns.len()) as nat,
    )
}

/// The error, if any, that framing a request with these fields gives.
pub open spec fn request_error(id: Seq<u8>, netns: Seq<u8>) -> Option<FrameError> {
    if id.len() > ID_LEN {
        Some(FrameError::IdTooLong)
    } else if has_nul(id) {
        Some(FrameError::NulInId)
    } else if netns.len() > MAX_PATH_LEN {
        Some(FrameError::PathTooLong)
    } else if has_nul(netns) {
        Some(FrameError::NulInPath)
    } else {
        None
    }
}

/// The position of the first NUL byte of `s` in `[lo, hi)`, if there is one.
fn first_nul(s: &[u8], lo: usize, hi: usize) -> (r: Option<usize>)
    requires
        lo <= hi <= s@.len(),
    ensures
        match r {
            Some(k) => lo <= k < hi && s@[k as int] == 0 && forall|j: int|
                lo <= j < k ==> s@[j] != 0,
            None => forall|j: int| lo <= j < hi ==> s@[j] != 0,
        },
{
    let mut k: usize = lo;
    while k < hi
        invariant
            lo <= k <= hi <= s@.len(),
            forall|j: int| lo <= j < k ==> s@[j] != 0,
        decreases hi - k,
    {
        if s[k] == 0 {
            return Some(k);
        }
        k = k + 1;
    }
    None
}

/// The bytes of `s` in `[lo, hi)`.
fn copy_range(s: &[u8], lo: usize, hi: usize) -> (r: Vec<u8>)
    requires
        lo <= hi <= s@.len(),
    ensures
        r@ == s@.subrange(lo as int, hi as int),
{
    let mut r: Vec<u8> = Vec::new();
    let mut k: usize = lo;
    while k < hi
        invariant
            lo <= k <= hi <= s@.len(),
            r@ == s@.subrange(lo as int, k as int),
        decreases hi - k,
    {
        r.push(s[k]);
        k = k + 1;
        assert(r@ =~= s@.subrange(lo as int, k as int));
    }
    r
}

/// Appends `n` zero bytes to `v`.
fn push_zeros(v: &mut Vec<u8>, n: usize)
    ensures
        final(v)@ == old(v)@ + zeros(n as nat),
{
    let ghost start = v@;
    let mut k: usize = 0;
    while k < n
        invariant
            k <= n,
            v@ == start + zeros(k as nat),
        decreases n - k,
    {
        v.push(0u8);
        k = k + 1;
        assert(v@ =~= start + zeros(k as nat));
    }
}

/// Appends the bytes of `s` to `v`.
pub(crate) fn push_all(v: &mut Vec<u8>, s: &[u8])
    ensures
        final(v)@ == old(v)@ + s@,
{
    let ghost start = v@;
    let mut k: usize = 0;
    while k < s.len()
        invariant
            k <= s@.len(),
            v@ == start + s@.subrange(0, k as int),
        decreases s@.len() - k,
    {
        v.push(s[k]);
        k = k + 1;
        assert(v@ =~= start + s@.subrange(0, k as int));
    }
    assert(s@.subrange(0, s@.len() as int) =~= s@);
}

/// Frames a request for the sandbox `id`, which joins the network namespace
/// at `netns`, or none when `netns` is empty.
pub fn encode_request(id: &[u8], netns: &[u8]) -> (r: Result<Vec<u8>, FrameError>)
    ensures
        match request_error(id@, netns@) {
            Some(e) => r == Err::<Vec<u8>, FrameError>(e),
            None => r is Ok && r->Ok_0@ == request_frame(id@, netns@),
        },
        r is Ok <==> request_fits(id@, netns@),
        r is Ok ==> r->Ok_0@.len() == REQUEST_LEN,
{
    if id.len() > ID_LEN {
        return Err(FrameError::IdTooLong);
    }
    if first_nul(id, 0, id.len()).is_some() {
        return Err(FrameError::NulInId);
    }
    if netns.len() > MAX_PATH_LEN {
        return Err(FrameError::PathTooLong);
    }
    if first_nul(netns, 0, netns.len()).is_some() {
        return Err(FrameError::NulInPath);
    }
    let mut f: Vec<u8> = Vec::new();
    push_all(&mut f, id);
    push_zeros(&mut f, ID_LEN - id.len());
    push_all(&mut f, netns);
    push_zeros(&mut f, REQUEST_LEN - ID_LEN - netns.len());
    Ok(f)
}

/// Reads a request frame. The identifier is read up to its first NUL byte,
/// the path up to the NUL that ends it; `None` when the path region holds no
/// NUL byte.
pub fn decode_request(frame: &[u8]) -> (r: Option<SandboxRequest>)
    requires
        frame@.len() == REQUEST_LEN,
    ensures
        r is Some <==> has_nul(frame@.subrange(ID_LEN as int, REQUEST_LEN as int)),
        r matches Some(q) ==> {
            &&& is_cstr_prefix(q.id@, frame@.subrange(0, ID_LEN as int))
            &&& is_cstr_prefix(q.netns@, frame@.subrange(ID_LEN as int, REQUEST_LEN as int))
        },
{
    let ghost region = frame@.subrange(ID_LEN as int, REQUEST_LEN as int);
    let path_end = match first_nul(frame, ID_LEN, REQUEST_LEN) {
        Some(k) => k,
        None => {
            assert(!has_nul(region)) by {
                assert forall|i: int| 0 <= i < region.len() implies region[i] != 0 by {
                    assert(region[i] == frame@[ID_LEN + i]);
                }
            }
            return None;
        },
    };
    assert(region[path_end - ID_LEN] == 0);
    let id_end = match first_nul(frame, 0, ID_LEN) {
        Some(k) => k,
        None => ID_LEN,
    };
    let id = copy_range(frame, 0, id_end);
    let netns = copy_range(frame, ID_LEN, path_end);
    Some(SandboxRequest { id, netns })
}


/// A C string whose bytes hold no NUL and which is followed by a NUL, or
/// fills its region, is the only way to read that region.
proof fn lemma_cstr_prefix_unique(r: Seq<u8>, c: Seq<u8>, pad: Seq<u8>)
    requires
        !has_nul(c),
        pad.len() > 0 ==> pad[0] == 0,
        is_cstr_prefix(r, c + pad),
    ensures
        r == c,
{
    let s = c + pad;
    if r.len() < c.len() {
        assert(s[r.len() as int] == c[r.len() as int]);
        assert(false);
    } else if r.len() > c.len() {
        assert(r[c.len() as int] == s[c.len() as int]);
        assert(false);
    }
    assert forall|i: int| 0 <= i < r.len() implies r[i] == c[i] by {
        assert(s[i] == c[i]);
    }
    assert(r =~= c);
}

/// Framing a request that fits and reading the frame back gives the same
/// identifier, without its padding, and the same path.
pub proof fn lemma_request_round_trip(id: Seq<u8>, netns: Seq<u8>)
    requires
        request_fits(id, netns),
    ensures
        request_frame(id, netns).len() == REQUEST_LEN,
        has_nul(request_frame(id, netns).subrange(ID_LEN as int, REQUEST_LEN as int)),
        forall|r: Seq<u8>|
            is_cstr_prefix(r, request_frame(id, netns).subrange(0, ID_LEN as int)) ==> r == id,
        forall|r: Seq<u8>|
            is_cstr_prefix(r, request_frame(id, netns).subrange(ID_LEN as int, REQUEST_LEN as int))
                ==> r == netns,
{
    let f = request_frame(id, netns);
    let idpad = zeros((ID_LEN - id.len()) as nat);
    let tail = zeros((REQUEST_LEN - ID_LEN - netns.len()) as nat);
    let head = f.subrange(0, ID_LEN as int);
    let rest = f.subrange(ID_LEN as int, REQUEST_LEN as int);
    assert(head =~= id + idpad);
    assert(rest =~= netns + tail);
    assert(rest[netns.len() as int] == 0);
    assert forall|r: Seq<u8>| is_cstr_prefix(r, head) implies r == id by {
        lemma_cstr_prefix_unique(r, id, idpad);
    }
    assert forall|r: Seq<u8>| is_cstr_prefix(r, rest) implies r == netns by {
        lemma_cstr_prefix_unique(r, netns, tail);
    }
}

} // verus!
