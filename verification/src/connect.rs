//! Connect.pkg: phoneme bigram connectivity matrix.
//!
//! Format: `[u32 n LE][n * n bytes]`, row-major (trailing bytes are ignored).
use vstd::prelude::*;

verus! {

/// Square connectivity matrix.
#[derive(Debug, Clone)]
pub struct ConnectMatrix {
    pub n: usize,
    pub matrix: Vec<u8>,
}

/// Little-endian u32 at offset `o`.
pub open spec fn u32_le(d: Seq<u8>, o: int) -> int {
    d[o] + 256 * d[o + 1] + 65536 * d[o + 2] + 16777216 * d[o + 3]
}

/// Little-endian u32 of four bytes.
fn read_u32_le4(b0: u8, b1: u8, b2: u8, b3: u8) -> (r: u32)
    ensures
        r == b0 + 256 * b1 + 65536 * b2 + 16777216 * b3,
{
    (b0 as u32) + 256 * (b1 as u32) + 65536 * (b2 as u32) + 16777216 * (b3 as u32)
}

impl ConnectMatrix {
    /// The matrix holds exactly `n * n` cells.
    pub open spec fn wf(&self) -> bool {
        self.matrix@.len() == self.n * self.n
    }

    /// Parse `[u32 n][n*n bytes]`; `None` when the header or the matrix is truncated.
    pub fn parse(data: &[u8]) -> (r: Option<Self>)
        ensures
            match r {
                Some(m) => {
                    &&& data@.len() >= 4
                    &&& m.n == u32_le(data@, 0)
                    &&& data@.len() >= 4 + m.n * m.n
                    &&& m.matrix@ == data@.subrange(4, 4 + m.n * m.n)
                    &&& m.wf()
                },
                None => data@.len() < 4 || data@.len() < 4 + u32_le(data@, 0) * u32_le(
                    data@,
                    0,
                ),
            },
    {
        if data.len() < 4 {
            return None;
        }
        let n32 = read_u32_le4(data[0], data[1], data[2], data[3]);
        let n = n32 as u64;
        assert(n * n <= 0xFFFF_FFFE_0000_0001) by (nonlinear_arith)
            requires
                n <= 0xFFFF_FFFF,
        ;
        let cells: u64 = n * n;
        if cells > data.len() as u64 - 4 {
            return None;
        }
        let n_us = n32 as usize;
        let end = 4 + (cells as usize);
        let mut matrix: Vec<u8> = Vec::new();
        let mut i: usize = 4;
        while i < end
            invariant
                4 <= i <= end,
                end <= data@.len(),
                matrix@ == data@.subrange(4, i as int),
            decreases end - i,
        {
            matrix.push(data[i]);
            i = i + 1;
            assert(matrix@ =~= data@.subrange(4, i as int));
        }
        Some(ConnectMatrix { n: n_us, matrix })
    }

    /// Cell `(left, right)`, or 0 outside the matrix.
    pub fn get(&self, left: usize, right: usize) -> (r: u8)
        requires
            self.wf(),
        ensures
            r == (if left < self.n && right < self.n {
                self.matrix@[left * self.n + right]
            } else {
                0u8
            }),
    {
        let len = self.matrix.len();
        if left < self.n && right < self.n {
            proof {
                assert(left * self.n + right < self.n * self.n) by (nonlinear_arith)
                    requires
                        left < self.n,
                        right < self.n,
                ;
            }
            self.matrix[left * self.n + right]
        } else {
            0
        }
    }

    /// Row `i`, or `None` outside the matrix.
    pub fn row(&self, i: usize) -> (r: Option<&[u8]>)
        requires
            self.wf(),
        ensures
            match r {
                Some(s) => i < self.n && s@ == self.matrix@.subrange(
                    i * self.n,
                    (i + 1) * self.n,
                ),
                None => i >= self.n,
            },
    {
        let len = self.matrix.len();
        if i < self.n {
            proof {
                assert((i + 1) * self.n <= self.n * self.n) by (nonlinear_arith)
                    requires
                        i < self.n,
                ;
                assert((i + 1) * self.n == i * self.n + self.n) by (nonlinear_arith);
            }
            let s = self.matrix.as_slice();
            Some(&s[i * self.n..(i + 1) * self.n])
        } else {
            None
        }
    }

    /// Matrix dimension.
    pub fn dim(&self) -> (r: usize)
        ensures
            r == self.n,
    {
        self.n
    }
}

} // verus!
