use vstd::prelude::*;

verus! {

/// How many underlying read attempts one buffered read request may make.
pub const READ_ATTEMPTS: usize = 5;

/// The read-ahead buffer of a device session: bytes already received from
/// the channel but not yet consumed, in arrival (FIFO) order.
pub struct DataBuffer {
    data: Vec<u8>,
}

impl View for DataBuffer {
    type V = Seq<u8>;

    closed spec fn view(&self) -> Seq<u8> {
        self.data@
    }
}

impl DataBuffer {
    /// An empty buffer.
    pub fn new() -> (r: Self)
        ensures
            r@ == Seq::<u8>::empty(),
    {
        let r = DataBuffer { data: Vec::new() };
        proof {
            assert(r@ =~= Seq::<u8>::empty());
        }
        r
    }

    /// How many bytes are buffered.
    pub fn len(&self) -> (n: usize)
        ensures
            n == self@.len(),
    {
        self.data.len()
    }

    /// Drop every buffered byte.
    pub fn clear(&mut self)
        ensures
            final(self)@ == Seq::<u8>::empty(),
    {
        self.data.clear();
        proof {
            assert(self@ =~= Seq::<u8>::empty());
        }
    }

    /// Append newly arrived bytes behind what is already buffered.
    pub fn feed(&mut self, chunk: &Vec<u8>)
        ensures
            final(self)@ == old(self)@ + chunk@,
    {
        let mut i: usize = 0;
        while i < chunk.len()
            invariant
                i <= chunk@.len(),
                self@ == old(self)@ + chunk@.take(i as int),
            decreases chunk@.len() - i,
        {
            self.data.push(chunk[i]);
            i = i + 1;
            proof {
                assert(old(self)@ + chunk@.take(i - 1 as int) + seq![chunk@[i - 1]]
                    =~= old(self)@ + chunk@.take(i as int));
            }
        }
        proof {
            assert(old(self)@ + chunk@.take(i as int) =~= old(self)@ + chunk@);
        }
    }

    /// Remove exactly `n` bytes from the front of the buffer and return
    /// them; anything beyond stays buffered for later calls. Fails, leaving
    /// the buffer untouched, when fewer than `n` bytes are held.
    pub fn take_exact(&mut self, n: usize) -> (r: Option<Vec<u8>>)
        ensures
            old(self)@.len() >= n ==> (r matches Some(taken) && taken@ == old(self)@.take(n as int)
                && final(self)@ == old(self)@.skip(n as int)),
            old(self)@.len() < n ==> r is None && final(self)@ == old(self)@,
    {
        if self.data.len() < n {
            return None;
        }
        let mut taken: Vec<u8> = Vec::new();
        let mut i: usize = 0;
        while i < n
            invariant
                i <= n,
                n <= self@.len(),
                self@ == old(self)@,
                taken@ == self@.take(i as int),
            decreases n - i,
        {
            taken.push(self.data[i]);
            i = i + 1;
            proof {
                assert(taken@ =~= self@.take(i as int));
            }
        }
        let mut rest: Vec<u8> = Vec::new();
        let mut j: usize = n;
        while j < self.data.len()
            invariant
                n <= j <= self@.len(),
                self@ == old(self)@,
                rest@ == self@.subrange(n as int, j as int),
            decreases self@.len() - j,
        {
            rest.push(self.data[j]);
            j = j + 1;
            proof {
                assert(rest@ =~= self@.subrange(n as int, j as int));
            }
        }
        self.data = rest;
        proof {
            assert(self@ =~= old(self)@.skip(n as int));
        }
        Some(taken)
    }
}

/// What a buffered read request does next.
#[derive(Debug, PartialEq, Eq, Clone, Copy)]
pub enum ReadStep {
    /// Enough bytes are buffered: remove and return them.
    Finish,
    /// Too few bytes and attempts remain: read from the channel once more.
    Retry,
    /// Too few bytes and no attempt left: the request fails as a short read,
    /// keeping the partial bytes buffered.
    GiveUp,
}

/// Decide one step of the retry-bounded buffered read: a request for
/// `needed` bytes finishes as soon as the buffer holds enough, retries while
/// fewer than `READ_ATTEMPTS` underlying reads have been made, and otherwise
/// gives up.
pub fn read_exactly_step(attempts_used: usize, buffered: usize, needed: usize) -> (s: ReadStep)
    ensures
        s == (if buffered >= needed {
            ReadStep::Finish
        } else if attempts_used < READ_ATTEMPTS {
            ReadStep::Retry
        } else {
            ReadStep::GiveUp
        }),
{
    if buffered >= needed {
        ReadStep::Finish
    } else if attempts_used < READ_ATTEMPTS {
        ReadStep::Retry
    } else {
        ReadStep::GiveUp
    }
}

/// The buffer contents after a run of arrivals has been fed in one at a
/// time.
pub open spec fn feed_all(buf: Seq<u8>, chunks: Seq<Seq<u8>>) -> Seq<u8>
    decreases chunks.len(),
{
    if chunks.len() == 0 {
        buf
    } else {
        feed_all(buf + chunks.first(), chunks.drop_first())
    }
}

proof fn lemma_feed_all_is_concat(buf: Seq<u8>, chunks: Seq<Seq<u8>>)
    ensures
        feed_all(buf, chunks) == buf + chunks.flatten(),
    decreases chunks.len(),
{
    if chunks.len() == 0 {
        assert(chunks.flatten() =~= Seq::<u8>::empty());
        assert(feed_all(buf, chunks) =~= buf + chunks.flatten());
    } else {
        lemma_feed_all_is_concat(buf + chunks.first(), chunks.drop_first());
        assert(chunks.flatten() == chunks.first() + chunks.drop_first().flatten());
        assert(buf + chunks.first() + chunks.drop_first().flatten()
            =~= buf + chunks.flatten());
    }
}

/// A read satisfied from several buffered partial arrivals returns the same
/// bytes as one satisfied from a single full arrival, and in either case the
/// buffer afterwards holds exactly the surplus bytes.
pub proof fn lemma_read_exactly_arrivals(buf: Seq<u8>, chunks: Seq<Seq<u8>>, n: int)
    requires
        0 <= n <= buf.len() + chunks.flatten().len(),
    ensures
        feed_all(buf, chunks).take(n) == (buf + chunks.flatten()).take(n),
        feed_all(buf, chunks).skip(n) == (buf + chunks.flatten()).skip(n),
{
    lemma_feed_all_is_concat(buf, chunks);
}

// ---------------------------------------------------------------------------
// Connection diagnostics: case-insensitive channel-name matching
// ---------------------------------------------------------------------------

/// An ASCII byte folded to lower case.
pub open spec fn lower_byte(c: u8) -> u8 {
    if 65 <= c <= 90 {
        (c + 32) as u8
    } else {
        c
    }
}

/// A byte string folded to lower case.
pub open spec fn lower_seq(s: Seq<u8>) -> Seq<u8> {
    s.map_values(|c: u8| lower_byte(c))
}

/// Whether two channel names are the same up to ASCII case.
pub fn eq_ignore_ascii_case(a: &Vec<u8>, b: &Vec<u8>) -> (r: bool)
    ensures
        r == (lower_seq(a@) == lower_seq(b@)),
{
    if a.len() != b.len() {
        proof {
            assert(lower_seq(a@).len() != lower_seq(b@).len());
        }
        return false;
    }
    let mut i: usize = 0;
    while i < a.len()
        invariant
            i <= a@.len(),
            a@.len() == b@.len(),
            forall|j: int| 0 <= j < i ==> lower_byte(a@[j]) == lower_byte(b@[j]),
        decreases a@.len() - i,
    {
        let ca = a[i];
        let cb = b[i];
        let fa = if 65 <= ca && ca <= 90 {
            ca + 32
        } else {
            ca
        };
        let fb = if 65 <= cb && cb <= 90 {
            cb + 32
        } else {
            cb
        };
        if fa != fb {
            proof {
                assert(lower_seq(a@)[i as int] != lower_seq(b@)[i as int]);
            }
            return false;
        }
        i = i + 1;
    }
    proof {
        assert(lower_seq(a@) =~= lower_seq(b@));
    }
    true
}

/// Whether a requested channel name appears, up to ASCII case, among the
/// names the system reports as present: distinguishes a busy channel from a
/// nonexistent one when a connection cannot be opened.
pub fn port_in_list(name: &Vec<u8>, ports: &Vec<Vec<u8>>) -> (r: bool)
    ensures
        r == (exists|i: int|
            0 <= i < ports@.len() && lower_seq(#[trigger] ports@[i]@) == lower_seq(name@)),
{
    let mut i: usize = 0;
    while i < ports.len()
        invariant
            i <= ports@.len(),
            forall|j: int| 0 <= j < i ==> lower_seq(#[trigger] ports@[j]@) != lower_seq(name@),
        decreases ports@.len() - i,
    {
        if eq_ignore_ascii_case(&ports[i], name) {
            return true;
        }
        i = i + 1;
    }
    false
}

} // verus!
