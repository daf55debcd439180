use vstd::prelude::*;

use crate::message::{HEADER_SIZE, MAX_MSG_SIZE};

verus! {

/// The number that little-endian bytes stand for.
pub open spec fn le_value(s: Seq<u8>) -> nat
    decreases s.len(),
{
    if s.len() == 0 {
        0
    } else {
        (s[0] + 256 * le_value(s.drop_first())) as nat
    }
}

/// 256 to the power `k`.
pub open spec fn pow256(k: nat) -> nat
    decreases k,
{
    if k == 0 {
        1
    } else {
        256 * pow256((k - 1) as nat)
    }
}

proof fn lemma_pow256_8()
    ensures
        pow256(8) == 0x1_0000_0000_0000_0000,
{
    reveal_with_fuel(pow256, 9);
}

proof fn lemma_pow256_mono(a: nat, b: nat)
    requires
        a <= b,
    ensures
        pow256(a) <= pow256(b),
        pow256(a) >= 1,
    decreases b,
{
    if a < b {
        lemma_pow256_mono(a, (b - 1) as nat);
    } else if a > 0 {
        lemma_pow256_mono((a - 1) as nat, (a - 1) as nat);
    }
}

/// The 8 little-endian bytes of a user id.
pub fn user_id_bytes(user_id: i64) -> (r: Vec<u8>)
    ensures
        r@.len() == 8,
        le_value(r@) == user_id as u64,
{
    let u0: u64 = user_id as u64;
    let mut u: u64 = u0;
    let mut out: Vec<u8> = Vec::new();
    let ghost mut pow: nat = 1;
    for k in 0..8usize
        invariant
            out@.len() == k,
            pow == pow256(k as nat),
            le_value(out@) + pow * u == u0,
    {
        proof {
            lemma_le_value_push(out@, (u % 256) as u8);
            assert(pow256((k + 1) as nat) == 256 * pow);
            assert(pow * u == pow * (u % 256) + (pow * 256) * (u / 256)) by (nonlinear_arith)
                requires
                    u == 256 * (u / 256) + u % 256,
            ;
        }
        out.push((u % 256) as u8);
        u = u / 256;
        proof {
            pow = pow * 256;
        }
    }
    proof {
        lemma_pow256_8();
        if u > 0 {
            assert(pow * u >= pow) by (nonlinear_arith)
                requires
                    u > 0,
                    pow > 0,
            ;
        }
    }
    out
}

/// The value of a list with one more byte at its end.
proof fn lemma_le_value_push(s: Seq<u8>, b: u8)
    ensures
        le_value(s.push(b)) == le_value(s) + pow256(s.len()) * b,
    decreases s.len(),
{
    if s.len() == 0 {
        assert(s.push(b).drop_first() =~= Seq::<u8>::empty());
        assert(le_value(Seq::<u8>::empty()) == 0);
        assert(le_value(s.push(b)) == b);
        assert(pow256(0) == 1);
    } else {
        assert(s.push(b).drop_first() =~= s.drop_first().push(b));
        assert(s.push(b)[0] == s[0]);
        assert(le_value(s.push(b)) == s[0] + 256 * le_value(s.drop_first().push(b)));
        lemma_le_value_push(s.drop_first(), b);
        let p = pow256((s.len() - 1) as nat);
        assert(pow256(s.len()) == 256 * p);
        assert(256 * (le_value(s.drop_first()) + p * b) == 256 * le_value(s.drop_first()) + (256
            * p) * b) by (nonlinear_arith);
    }
}

/// The user id that the first 8 bytes of a message stand for.
pub fn read_user_id(data: &Vec<u8>) -> (r: i64)
    requires
        data.len() >= 8,
    ensures
        r == (le_value(data@.take(8)) as u64) as i64,
{
    let mut acc: u64 = 0;
    let mut k: usize = 8;
    while k > 0
        invariant
            k <= 8,
            data.len() >= 8,
            acc == le_value(data@.subrange(k as int, 8)),
            acc < pow256((8 - k) as nat),
        decreases k,
    {
        let ghost tail = data@.subrange(k as int, 8);
        k = k - 1;
        proof {
            assert(data@.subrange(k as int, 8).drop_first() =~= tail);
            lemma_pow256_mono((8 - k) as nat, 8);
            lemma_pow256_8();
            let p = pow256((7 - k) as nat);
            assert(pow256((8 - k) as nat) == 256 * p);
            assert(data@[k as int] + 256 * acc < 256 * p) by (nonlinear_arith)
                requires
                    acc < p,
                    data@[k as int] < 256,
            ;
        }
        acc = data[k] as u64 + 256 * acc;
    }
    assert(data@.subrange(0, 8) =~= data@.take(8));
    acc as i64
}

/// A message tagged with the user it comes from or goes to: the 8 bytes of the user id,
/// then the message.
pub fn frame_for_user(user_id: &i64, data: Vec<u8>) -> (r: Vec<u8>)
    ensures
        r@.len() == 8 + data@.len(),
        le_value(r@.take(8)) == *user_id as u64,
        r@.skip(8) == data@,
{
    let mut out = user_id_bytes(*user_id);
    let ghost head = out@;
    let n = data.len();
    for i in 0..n
        invariant
            n == data.len(),
            out@ == head + data@.take(i as int),
    {
        out.push(data[i]);
        assert(data@.take(i + 1) =~= data@.take(i as int).push(data@[i as int]));
        assert(out@ =~= head + data@.take(i + 1));
    }
    assert(data@.take(n as int) =~= data@);
    assert(out@.take(8) =~= head);
    assert(out@.skip(8) =~= data@);
    out
}

/// Reading the user id of a tagged message gives back the tag.
pub proof fn lemma_frame_round_trip(user_id: i64, framed: Seq<u8>)
    requires
        framed.len() >= 8,
        le_value(framed.take(8)) == user_id as u64,
    ensures
        (le_value(framed.take(8)) as u64) as i64 == user_id,
{
    assert(((user_id as u64) as i64) == user_id) by (bit_vector);
}

/// The read buffer of a client connection.
pub struct ClientSession {
    pub buf: [u8; 4096],
    pub cur_head: usize,
    pub cur_tail: usize,
    pub cur_size: usize,
    pub total_size: usize,
}

/// What the buffer yields for an announced message length.
pub enum FrameStep {
    /// The announced length exceeds the limit: the connection is dropped.
    TooLong,
    /// The message has not fully arrived yet.
    Incomplete,
    /// A whole message, header included.
    Message(Vec<u8>),
}

impl ClientSession {
    /// The buffer positions are consistent.
    pub open spec fn wf(&self) -> bool {
        &&& self.cur_head <= self.cur_tail <= self.total_size
        &&& self.total_size == 4096
        &&& self.cur_size == self.cur_tail - self.cur_head
    }

    pub fn new() -> (r: ClientSession)
        ensures
            r.cur_head == 0,
            r.cur_tail == 0,
            r.cur_size == 0,
            r.total_size == 4096,
            r.wf(),
    {
        ClientSession { buf: [0u8; 4096], cur_head: 0, cur_tail: 0, cur_size: 0, total_size: 4096 }
    }

    /// Moves the unread bytes to the front of the buffer.
    pub fn rollbuf(&mut self)
        requires
            old(self).cur_head <= old(self).cur_tail <= 4096,
        ensures
            old(self).cur_head == 0 ==> *final(self) == *old(self),
            old(self).cur_head > 0 ==> {
                let n = old(self).cur_tail - old(self).cur_head;
                &&& final(self).cur_head == 0
                &&& final(self).cur_tail == n
                &&& final(self).cur_size == old(self).cur_size
                &&& final(self).total_size == old(self).total_size
                &&& final(self).buf@.take(n) == old(self).buf@.subrange(
                    old(self).cur_head as int,
                    old(self).cur_tail as int,
                )
                &&& final(self).buf@.skip(n) == old(self).buf@.skip(n)
            },
    {
        if self.cur_head == 0 {
            return;
        }
        let mut ix: usize = 0;
        let head = self.cur_head;
        let tail = self.cur_tail;
        for i in head..tail
            invariant
                head == old(self).cur_head,
                tail == old(self).cur_tail,
                0 < head <= tail <= 4096,
                ix == i - head,
                self.cur_head == head,
                self.cur_tail == tail,
                self.cur_size == old(self).cur_size,
                self.total_size == old(self).total_size,
                forall|k: int| 0 <= k < ix ==> self.buf@[k] == old(self).buf@[k + head],
                forall|k: int| ix <= k < 4096 ==> self.buf@[k] == old(self).buf@[k],
        {
            self.buf[ix] = self.buf[i];
            ix += 1;
        }
        self.cur_head = 0;
        self.cur_tail = ix;
        assert(self.buf@.take(ix as int) =~= old(self).buf@.subrange(head as int, tail as int));
        assert(self.buf@.skip(ix as int) =~= old(self).buf@.skip(ix as int));
    }

    pub fn reach_buf_end(&self) -> (r: bool)
        ensures
            r == (self.cur_tail == self.total_size),
    {
        self.cur_tail == self.total_size
    }

    /// Takes note of `n` bytes read into the buffer at its tail, and moves the unread bytes
    /// to the front when the tail reached the end.
    pub fn record_read(&mut self, n: usize)
        requires
            old(self).wf(),
            old(self).cur_tail + n <= 4096,
        ensures
            final(self).wf(),
            final(self).cur_size == old(self).cur_size + n,
            old(self).cur_tail + n < 4096 ==> final(self).cur_tail == old(self).cur_tail + n
                && final(self).cur_head == old(self).cur_head && final(self).buf == old(self).buf,
            old(self).cur_tail + n == 4096 && old(self).cur_head > 0 ==> final(self).cur_head == 0
                && final(self).cur_tail == 4096 - old(self).cur_head,
    {
        self.cur_tail += n;
        self.cur_size += n;
        if self.reach_buf_end() {
            self.rollbuf();
        }
    }

    /// The header bytes of the next message, once enough bytes were read.
    pub fn pending_header(&self) -> (r: Option<Vec<u8>>)
        requires
            self.wf(),
        ensures
            self.cur_size < HEADER_SIZE ==> r is None,
            self.cur_size >= HEADER_SIZE ==> (r matches Some(h) && h@ == self.buf@.subrange(
                self.cur_head as int,
                self.cur_head + HEADER_SIZE,
            )),
    {
        if self.cur_size < HEADER_SIZE {
            return None;
        }
        let mut h: Vec<u8> = Vec::new();
        let head = self.cur_head;
        for i in head..head + HEADER_SIZE
            invariant
                head == self.cur_head,
                head + HEADER_SIZE <= 4096,
                h@ == self.buf@.subrange(head as int, i as int),
        {
            h.push(self.buf[i]);
            assert(h@ =~= self.buf@.subrange(head as int, i + 1));
        }
        Some(h)
    }

    /// Takes the next message out of the buffer, given the length its header announces.
    pub fn take_message(&mut self, header_len: i32) -> (r: FrameStep)
        requires
            old(self).wf(),
        ensures
            final(self).wf(),
            header_len > MAX_MSG_SIZE ==> r is TooLong && *final(self) == *old(self),
            header_len <= MAX_MSG_SIZE && old(self).cur_size < header_len as usize ==> r is Incomplete
                && *final(self) == *old(self),
            header_len <= MAX_MSG_SIZE && old(self).cur_size >= header_len as usize ==> {
                let len = header_len as usize;
                &&& r matches FrameStep::Message(m) && m@ == old(self).buf@.subrange(
                    old(self).cur_head as int,
                    old(self).cur_head + len,
                )
                &&& final(self).cur_size == old(self).cur_size - len
                &&& final(self).cur_head == old(self).cur_head + len
                &&& final(self).cur_tail == old(self).cur_tail
                &&& final(self).buf == old(self).buf
                &&& final(self).total_size == old(self).total_size
            },
    {
        if header_len > MAX_MSG_SIZE {
            return FrameStep::TooLong;
        }
        let len = header_len as usize;
        if self.cur_size >= len {
            let head = self.cur_head;
            let mut m: Vec<u8> = Vec::new();
            for i in head..head + len
                invariant
                    head == self.cur_head,
                    head + len <= 4096,
                    m@ == self.buf@.subrange(head as int, i as int),
            {
                m.push(self.buf[i]);
                assert(m@ =~= self.buf@.subrange(head as int, i + 1));
            }
            self.cur_size -= len;
            self.cur_head += len;
            FrameStep::Message(m)
        } else {
            FrameStep::Incomplete
        }
    }
}

} // verus!
