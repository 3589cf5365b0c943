//! The buffer of the UART that a SportIdent station writes its punch records to.
//!
//! Bytes are appended as they are read; records are taken from the front of the buffer, and
//! what follows the last one is kept for the next read.
use vstd::prelude::*;

use crate::error::Error;
use crate::punch::{find_punch_spec, SiPunch, LEN};

verus! {

/// The most records taken from one read.
pub const PUNCH_CAPACITY: usize = 5;

/// The size of the buffer in bytes.
pub const BUF_SIZE: usize = 100;

/// The records found one after another in `payload`, at most `k` of them, and what is left after
/// the last one.
pub open spec fn records_from(payload: Seq<u8>, k: nat) -> (Seq<Seq<u8>>, Seq<u8>)
    decreases k,
{
    if k == 0 {
        (seq![], payload)
    } else {
        match find_punch_spec(payload) {
            None => (seq![], payload),
            Some((p, rest)) => {
                let more = records_from(payload.subrange(rest, payload.len() as int), (k - 1) as nat);
                (seq![p] + more.0, more.1)
            },
        }
    }
}

/// The bytes read from the UART that are not yet taken.
#[derive(Debug, Clone, PartialEq, Eq)]
pub struct SiBuffer {
    buf: Vec<u8>,
}

impl SiBuffer {
    /// The bytes held.
    pub closed spec fn content(&self) -> Seq<u8> {
        self.buf@
    }

    /// An empty buffer.
    pub fn new() -> (r: SiBuffer)
        ensures
            r.content() == Seq::<u8>::empty(),
    {
        SiBuffer { buf: Vec::new() }
    }

    /// How many more bytes the buffer can take.
    pub fn free_space(&self) -> (r: usize)
        ensures
            self.content().len() <= BUF_SIZE ==> r == BUF_SIZE - self.content().len(),
            self.content().len() > BUF_SIZE ==> r == 0,
    {
        if self.buf.len() >= BUF_SIZE {
            0
        } else {
            BUF_SIZE - self.buf.len()
        }
    }

    /// Takes the bytes of one read, and the records that the buffer then holds.
    ///
    /// Nothing read means the UART is closed. At most `PUNCH_CAPACITY` records are taken, and
    /// what follows them is kept. When no record is found in two records' worth of bytes, the
    /// first record's worth is dropped and the read fails with `UartReadError`.
    pub fn receive(&mut self, data: &[u8]) -> (r: Result<Vec<[u8; 20]>, Error>)
        requires
            old(self).content().len() + data@.len() <= BUF_SIZE,
        ensures
            ({
                let all = old(self).content() + data@;
                let (records, rest) = records_from(all, PUNCH_CAPACITY as nat);
                if data@.len() == 0 {
                    r == Err::<Vec<[u8; 20]>, Error>(Error::UartClosedError) && final(self).content()
                        == old(self).content()
                } else if records.len() == 0 && all.len() >= 2 * LEN {
                    r == Err::<Vec<[u8; 20]>, Error>(Error::UartReadError) && final(self).content()
                        == all.subrange(LEN as int, all.len() as int)
                } else {
                    r matches Ok(v) && v@.len() == records.len() && (forall|i: int|
                        0 <= i < v@.len() ==> v@[i]@ == records[i]) && final(self).content() == rest
                }
            }),
    {
        let ghost old_content = self.buf@;
        let mut k: usize = 0;
        while k < data.len()
            invariant
                k <= data@.len(),
                self.buf@ == old_content + data@.subrange(0, k as int),
            decreases data@.len() - k,
        {
            self.buf.push(data[k]);
            k = k + 1;
            assert(self.buf@ =~= old_content + data@.subrange(0, k as int));
        }
        assert(data@.subrange(0, data@.len() as int) =~= data@);
        let ghost all = self.buf@;
        if data.len() == 0 {
            assert(self.buf@ =~= old_content);
            return Err(Error::UartClosedError);
        }
        let mut punches: Vec<[u8; 20]> = Vec::new();
        let mut start: usize = 0;
        let n = self.buf.len();
        let mut searching = true;
        proof {
            assert(all.subrange(0, n as int) =~= all);
            let more = records_from(all, PUNCH_CAPACITY as nat);
            assert(punches@.map_values(|p: [u8; 20]| p@) + more.0 =~= more.0);
        }
        while searching && punches.len() < PUNCH_CAPACITY
            invariant
                n == all.len(),
                self.buf@ == all,
                start <= n,
                punches@.len() <= PUNCH_CAPACITY,
                searching ==> records_from(all, PUNCH_CAPACITY as nat) == ({
                    let more = records_from(all.subrange(start as int, n as int), (PUNCH_CAPACITY - punches@.len()) as nat);
                    (punches@.map_values(|p: [u8; 20]| p@) + more.0, more.1)
                }),
                !searching ==> records_from(all, PUNCH_CAPACITY as nat) == (
                    punches@.map_values(|p: [u8; 20]| p@),
                    all.subrange(start as int, n as int),
                ),
            decreases PUNCH_CAPACITY - punches@.len(), if searching { 1int } else { 0int },
        {
            let payload: &[u8] = &self.buf.as_slice()[start..n];
            match SiPunch::find_punch_data(payload) {
                Some((punch, rest)) => {
                    let ghost before = punches@.map_values(|p: [u8; 20]| p@);
                    let ghost rest_start = (find_punch_spec(payload@)->0).1;
                    proof {
                        let m = (PUNCH_CAPACITY - punches@.len()) as nat;
                        assert(payload@ == all.subrange(start as int, n as int));
                        assert(payload@.subrange(rest_start, payload@.len() as int) =~= all.subrange(
                            start + rest_start,
                            n as int,
                        ));
                    }
                    punches.push(punch);
                    let consumed = n - start - rest.len();
                    start = start + consumed;
                    proof {
                        assert(punches@.map_values(|p: [u8; 20]| p@) =~= before + seq![punch@]);
                    }
                },
                None => {
                    searching = false;
                    proof {
                        assert(all.subrange(start as int, n as int) == payload@);
                    }
                },
            }
        }
        proof {
            if searching {
                assert(records_from(all.subrange(start as int, n as int), 0) == (
                    Seq::<Seq<u8>>::empty(),
                    all.subrange(start as int, n as int),
                ));
                assert(punches@.map_values(|p: [u8; 20]| p@) + Seq::<Seq<u8>>::empty() =~= punches@.map_values(|p: [u8; 20]| p@));
            }
        }
        if punches.len() == 0 && n >= 2 * LEN {
            let mut kept: Vec<u8> = Vec::new();
            let mut j: usize = LEN;
            while j < n
                invariant
                    n == all.len(),
                    self.buf@ == all,
                    LEN <= j <= n,
                    kept@ == all.subrange(LEN as int, j as int),
                decreases n - j,
            {
                kept.push(self.buf[j]);
                j = j + 1;
                assert(kept@ =~= all.subrange(LEN as int, j as int));
            }
            self.buf = kept;
            return Err(Error::UartReadError);
        }
        let mut kept: Vec<u8> = Vec::new();
        let mut j: usize = start;
        while j < n
            invariant
                n == all.len(),
                self.buf@ == all,
                start <= j <= n,
                kept@ == all.subrange(start as int, j as int),
            decreases n - j,
        {
            kept.push(self.buf[j]);
            j = j + 1;
            assert(kept@ =~= all.subrange(start as int, j as int));
        }
        self.buf = kept;
        Ok(punches)
    }
}

} // verus!
