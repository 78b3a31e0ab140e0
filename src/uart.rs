use vstd::prelude::*;

verus! {

/// Columns on a terminal line before output wraps.
pub const LINE_WIDTH: u8 = 80;

/// What the serial port is sent for byte `c` when the cursor is at column
/// `x`, and the column after it. A newline, or any byte once the line is
/// full, starts a new line (a full line is broken with `\r\n` first).
pub open spec fn wrap_step(x: u8, c: u8) -> (Seq<u8>, u8) {
    if x >= LINE_WIDTH || c == 10u8 {
        if c != 10u8 {
            (seq![13u8, 10u8, c], 0u8)
        } else {
            (seq![c], 0u8)
        }
    } else {
        (seq![c], (x + 1) as u8)
    }
}

/// The bytes sent for `s` from column `x`, and the column after them.
pub open spec fn wrap_bytes(x: u8, s: Seq<u8>) -> (Seq<u8>, u8)
    decreases s.len(),
{
    if s.len() == 0 {
        (Seq::empty(), x)
    } else {
        let (out, x1) = wrap_bytes(x, s.drop_last());
        let (more, x2) = wrap_step(x1, s.last());
        (out + more, x2)
    }
}

/// Tracks the output column of a serial terminal and breaks lines that
/// would run past its width.
pub struct LineWrapper {
    column: u8,
}

impl LineWrapper {
    /// The current output column.
    pub closed spec fn col(&self) -> u8 {
        self.column
    }

    /// A wrapper at the start of a line.
    pub fn new() -> (r: Self)
        ensures
            r.col() == 0,
    {
        LineWrapper { column: 0 }
    }

    /// The current output column.
    pub fn column(&self) -> (r: u8)
        ensures
            r == self.col(),
    {
        self.column
    }

    /// The bytes to send to the port for `s`, with line breaks added.
    pub fn wrap(&mut self, s: &[u8]) -> (r: Vec<u8>)
        ensures
            (r@, final(self).col()) == wrap_bytes(old(self).col(), s@),
    {
        let mut out: Vec<u8> = Vec::new();
        let len: usize = s.len();
        let mut i: usize = 0;
        while i < len
            invariant
                len == s@.len(),
                i <= len,
                (out@, self.column) == wrap_bytes(old(self).col(), s@.subrange(0, i as int)),
            decreases len - i,
        {
            let c: u8 = s[i];
            proof {
                assert(s@.subrange(0, i as int + 1).drop_last() =~= s@.subrange(0, i as int));
            }
            if self.column >= LINE_WIDTH || c == 10u8 {
                self.column = 0;
                if c != 10u8 {
                    out.push(13u8);
                    out.push(10u8);
                }
                out.push(c);
            } else {
                out.push(c);
                self.column = self.column + 1;
            }
            proof {
                let (o, x) = wrap_step(
                    wrap_bytes(old(self).col(), s@.subrange(0, i as int)).1,
                    c,
                );
                assert(out@ =~= wrap_bytes(old(self).col(), s@.subrange(0, i as int)).0 + o);
            }
            i = i + 1;
        }
        assert(s@.subrange(0, len as int) =~= s@);
        out
    }
}

} // verus!
