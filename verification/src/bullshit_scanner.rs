//! A scanner that reads lines and bytes from a byte source through a buffer
//! of fixed size.
//!
//! The source is a run of bytes in memory. The scanner hands them out in
//! order, a line or a byte or a block at a time; a line has to fit in the
//! buffer together with the newline that ends it.

use crate::packet::{copy_range, zeroes};
use vstd::prelude::*;
use vstd::utf8::{decode_utf8, encode_utf8, valid_utf8};

verus! {

/// The smallest buffer: 64 bytes.
pub const MIN_BUFSIZE: usize = 64;

/// The largest buffer: 128 MB.
pub const MAX_BUFSIZE: usize = 0x800_0000;

/// The buffer size where none is asked for: 1 MB.
pub const DEFAULT_BUFSIZE: usize = 0x10_0000;

/// The message of the error that marks the end of the source.
pub const EOF: &'static str = "EOF";

/// The message of the error for a line that does not fit in the buffer.
pub const LINE_TOO_LONG: &'static str = "buffer is not big enough";

/// The message of the error for a line that is no text.
pub const NOT_UTF8: &'static str = "invalid utf-8 sequence";

/// The error of the scanner: a message and the text of its cause, each where
/// there is one.
#[derive(Debug)]
pub struct BullshitError {
    msg: Option<String>,
    err: Option<String>,
}

impl BullshitError {
    /// The message, if there is one.
    pub closed spec fn text(&self) -> Option<Seq<char>> {
        match self.msg {
            Some(m) => Some(m@),
            None => None,
        }
    }

    /// The text of the cause, if there is one.
    pub closed spec fn cause(&self) -> Option<Seq<char>> {
        match self.err {
            Some(e) => Some(e@),
            None => None,
        }
    }

    /// An error without message or cause.
    pub fn new() -> (e: BullshitError)
        ensures
            e.text() is None,
            e.cause() is None,
    {
        BullshitError { msg: None, err: None }
    }

    /// An error with a message.
    pub fn with_msg(msg: String) -> (e: BullshitError)
        ensures
            e.text() == Some(msg@),
            e.cause() is None,
    {
        BullshitError::of(Some(msg), None)
    }

    /// An error with a cause.
    pub fn wrapping(err: String) -> (e: BullshitError)
        ensures
            e.text() is None,
            e.cause() == Some(err@),
    {
        BullshitError::of(None, Some(err))
    }

    /// An error with the message and the cause given.
    pub fn of(msg: Option<String>, err: Option<String>) -> (e: BullshitError)
        ensures
            e.text() == match msg {
                Some(m) => Some(m@),
                None => None,
            },
            e.cause() == match err {
                Some(c) => Some(c@),
                None => None,
            },
    {
        BullshitError { msg, err }
    }

    /// The error that marks the end of the source.
    pub fn default() -> (e: BullshitError)
        ensures
            e.text() == Some(EOF@),
            e.cause() is None,
    {
        BullshitError::new().msg(EOF)
    }

    /// The same error with another message.
    pub fn msg(self, msg: &str) -> (e: BullshitError)
        ensures
            e.text() == Some(msg@),
            e.cause() == self.cause(),
    {
        BullshitError { msg: Some(String::from_str(msg)), err: self.err }
    }

    /// The same error with another cause.
    pub fn wrap(self, err: String) -> (e: BullshitError)
        ensures
            e.text() == self.text(),
            e.cause() == Some(err@),
    {
        BullshitError { msg: self.msg, err: Some(err) }
    }

    /// What this error prints: its message, or nothing.
    pub fn message(&self) -> (s: String)
        ensures
            s@ == match self.text() {
                Some(m) => m,
                None => Seq::<char>::empty(),
            },
    {
        match &self.msg {
            Some(m) => m.clone(),
            None => String::new(),
        }
    }
}

impl Clone for BullshitError {
    fn clone(&self) -> (e: BullshitError)
        ensures
            e.text() == self.text(),
            e.cause() == self.cause(),
    {
        BullshitError {
            msg: match &self.msg {
                Some(m) => Some(m.clone()),
                None => None,
            },
            err: match &self.err {
                Some(c) => Some(c.clone()),
                None => None,
            },
        }
    }
}

/// The scanner's buffer: `bites[red..filled]` is what was taken from the
/// source and not handed out yet.
#[derive(Debug)]
pub struct Buffer {
    red: usize,
    filled: usize,
    bites: Vec<u8>,
}

/// Reads a run of bytes through a buffer of fixed size.
#[derive(Debug)]
pub struct BullshitScanner {
    reader: Vec<u8>,
    taken: usize,
    buf: Buffer,
    err: Option<BullshitError>,
}

/// Turns bytes into a string if they are text.
///
/// Trusted: this is `String::from_utf8`, which gives a string exactly when
/// the bytes are well-formed UTF-8; the string then consists of the
/// characters that the bytes encode.
#[verifier::external_body]
pub(crate) fn string_from_utf8(bytes: Vec<u8>) -> (r: Option<String>)
    ensures
        match r {
            Some(s) => valid_utf8(bytes@) && s@ == decode_utf8(bytes@),
            None => !valid_utf8(bytes@),
        },
{
    String::from_utf8(bytes).ok()
}

/// The place of the first newline in `bytes`, or -1 if there is none.
pub open spec fn newline_at(bytes: Seq<u8>) -> int
    decreases bytes.len(),
{
    if bytes.len() == 0 {
        -1
    } else if bytes[0] == 10 {
        0
    } else if newline_at(bytes.skip(1)) < 0 {
        -1
    } else {
        newline_at(bytes.skip(1)) + 1
    }
}

/// `newline_at` finds the first newline, and -1 only where there is none.
pub proof fn lemma_newline_at(bytes: Seq<u8>)
    ensures
        -1 <= newline_at(bytes) < bytes.len(),
        newline_at(bytes) >= 0 ==> bytes[newline_at(bytes)] == 10 && forall|j: int|
            0 <= j < newline_at(bytes) ==> bytes[j] != 10,
        newline_at(bytes) < 0 ==> forall|j: int| 0 <= j < bytes.len() ==> bytes[j] != 10,
    decreases bytes.len(),
{
    if bytes.len() > 0 && bytes[0] != 10 {
        let rest = bytes.skip(1);
        lemma_newline_at(rest);
        if newline_at(rest) >= 0 {
            assert(rest[newline_at(rest)] == bytes[newline_at(rest) + 1]);
            assert forall|j: int| 0 <= j < newline_at(bytes) implies bytes[j] != 10 by {
                if j > 0 {
                    assert(rest[j - 1] == bytes[j]);
                }
            }
        } else {
            assert forall|j: int| 0 <= j < bytes.len() implies bytes[j] != 10 by {
                if j > 0 {
                    assert(rest[j - 1] == bytes[j]);
                }
            }
        }
    }
}

/// A line without the carriage returns at its end.
pub open spec fn trim_cr(line: Seq<u8>) -> Seq<u8>
    decreases line.len(),
{
    if line.len() > 0 && line.last() == 13 {
        trim_cr(line.drop_last())
    } else {
        line
    }
}

/// What the scanner sees of `unread` through a buffer of `capacity` bytes.
pub open spec fn window(unread: Seq<u8>, capacity: nat) -> Seq<u8> {
    if unread.len() <= capacity {
        unread
    } else {
        unread.take(capacity as int)
    }
}

/// How `next_line` ends.
pub enum LineVerdict {
    /// A line, without the newline and the carriage returns at its end, and
    /// the number of bytes it took from the source.
    Line(Seq<u8>, nat),
    /// The line is no text.
    NotText,
    /// The buffer is full and holds no newline.
    TooLong,
    /// The source ends before the next newline.
    End,
}

/// How `next_line` ends for a scanner that has `unread` before it and a
/// buffer of `capacity` bytes.
pub open spec fn line_verdict(unread: Seq<u8>, capacity: nat) -> LineVerdict {
    let w = window(unread, capacity);
    let i = newline_at(w);
    if i >= 0 {
        if valid_utf8(trim_cr(w.take(i))) {
            LineVerdict::Line(trim_cr(w.take(i)), (i + 1) as nat)
        } else {
            LineVerdict::NotText
        }
    } else if w.len() >= capacity {
        LineVerdict::TooLong
    } else {
        LineVerdict::End
    }
}

/// A line takes at least its newline from the source, and no more than the
/// source holds.
pub proof fn lemma_line_taken(unread: Seq<u8>, capacity: nat)
    ensures
        line_verdict(unread, capacity) matches LineVerdict::Line(_, n) ==> 0 < n <= unread.len(),
{
    lemma_newline_at(window(unread, capacity));
}

impl BullshitScanner {
    /// The bytes that the scanner has taken from the source and not handed
    /// out.
    pub closed spec fn pending(&self) -> nat {
        (self.buf.filled - self.buf.red) as nat
    }

    /// What holds of every scanner: the buffer holds the bytes of the source
    /// that come next, and the end is noted only where the source has ended.
    pub closed spec fn wf(&self) -> bool {
        &&& self.buf.red <= self.buf.filled <= self.buf.bites@.len()
        &&& MIN_BUFSIZE <= self.buf.bites@.len() <= MAX_BUFSIZE
        &&& self.taken <= self.reader@.len()
        &&& self.pending() <= self.taken
        &&& self.buf.bites@.subrange(self.buf.red as int, self.buf.filled as int)
            == self.reader@.subrange(self.taken - self.pending(), self.taken as int)
        &&& self.err is Some ==> self.taken == self.reader@.len()
        &&& self.err matches Some(e) ==> e.text() == Some(EOF@) && e.cause() is None
    }

    /// The bytes of the source that have not been handed out.
    pub closed spec fn unread(&self) -> Seq<u8> {
        self.reader@.skip(self.taken - self.pending())
    }

    /// The size of the buffer.
    pub closed spec fn capacity(&self) -> nat {
        self.buf.bites@.len()
    }

    /// Whether the scanner has found the end of the source.
    pub closed spec fn ended(&self) -> bool {
        self.err is Some
    }

    /// The buffer size that stands for the size asked for: not less than 64
    /// bytes, not more than 128 MB.
    pub open spec fn clamp(size: usize) -> usize {
        if size < MIN_BUFSIZE {
            MIN_BUFSIZE
        } else if size > MAX_BUFSIZE {
            MAX_BUFSIZE
        } else {
            size
        }
    }

    /// A scanner over `reader` with a buffer of 1 MB.
    pub fn new(reader: &[u8]) -> (s: BullshitScanner)
        ensures
            s.wf(),
            s.unread() == reader@,
            s.capacity() == DEFAULT_BUFSIZE,
            !s.ended(),
            s.unfilled(),
    {
        BullshitScanner::with_capacity(reader, DEFAULT_BUFSIZE)
    }

    /// A scanner over `reader` with a buffer of `size` bytes, or of the
    /// nearest size that is allowed.
    pub fn with_capacity(reader: &[u8], size: usize) -> (s: BullshitScanner)
        ensures
            s.wf(),
            s.unread() == reader@,
            s.capacity() == Self::clamp(size),
            !s.ended(),
            s.unfilled(),
    {
        let capacity = if size < MIN_BUFSIZE {
            MIN_BUFSIZE
        } else if size > MAX_BUFSIZE {
            MAX_BUFSIZE
        } else {
            size
        };
        let s = BullshitScanner {
            reader: copy_range(reader, 0, reader.len()),
            taken: 0,
            err: None,
            buf: Buffer { red: 0, filled: 0, bites: zeroes(capacity) },
        };
        assert(s.reader@ =~= reader@);
        assert(s.unread() =~= reader@);
        assert(s.buf.bites@.subrange(0, 0) =~= s.reader@.subrange(0, 0));
        s
    }

    /// Whether nothing is left: the source has ended and the buffer is
    /// empty.
    pub fn cannot_read_anymore(&self) -> (r: bool)
        requires
            self.wf(),
        ensures
            r == (self.ended() && self.unread().len() == 0),
    {
        self.err.is_some() && self.buf.red == self.buf.filled
    }

    /// Moves what is pending to the front of the buffer and fills the rest of
    /// the buffer from the source. Where the source gives nothing, its end
    /// is noted.
    pub fn load(&mut self)
        requires
            old(self).wf(),
            old(self).pending() < old(self).capacity(),
        ensures
            final(self).wf(),
            final(self).unread() == old(self).unread(),
            final(self).capacity() == old(self).capacity(),
            final(self).pending() == window(old(self).unread(), old(self).capacity()).len(),
            final(self).ended() == (old(self).ended() || final(self).pending() == old(
                self,
            ).pending()),
            final(self).buffered() == window(old(self).unread(), old(self).capacity()),
            final(self).unfilled() == (final(self).pending() == 0),
    {
        let pending = self.buf.filled - self.buf.red;
        let red = self.buf.red;
        let mut i: usize = 0;
        while i < pending
            invariant
                i <= pending,
                red + pending == self.buf.filled,
                self.buf.filled <= self.buf.bites@.len(),
                self.buf.bites@.len() == old(self).buf.bites@.len(),
                self.buf.red == old(self).buf.red,
                self.buf.filled == old(self).buf.filled,
                red == old(self).buf.red,
                self.reader == old(self).reader,
                self.taken == old(self).taken,
                self.err == old(self).err,
                forall|k: int| 0 <= k < i ==> self.buf.bites@[k] == old(self).buf.bites@[red + k],
                forall|k: int|
                    red + i <= k < self.buf.filled ==> self.buf.bites@[k] == old(
                        self,
                    ).buf.bites@[k],
            decreases pending - i,
        {
            let b = self.buf.bites[red + i];
            self.buf.bites.set(i, b);
            i += 1;
        }
        self.buf.filled = pending;
        self.buf.red = 0;
        proof {
            assert(self.buf.bites@.subrange(0, pending as int) =~= old(self).buf.bites@.subrange(
                red as int,
                red + pending,
            ));
        }
        let room = self.buf.bites.len() - self.buf.filled;
        let left = self.reader.len() - self.taken;
        let n = if room < left {
            room
        } else {
            left
        };
        let mut j: usize = 0;
        while j < n
            invariant
                j <= n,
                n <= room,
                n <= left,
                pending + room == self.buf.bites@.len(),
                self.taken + left == self.reader@.len(),
                self.buf.bites@.len() <= usize::MAX,
                self.reader@.len() <= usize::MAX,
                red + pending <= old(self).buf.bites@.len(),
                self.buf.filled == pending,
                self.buf.red == 0,
                self.buf.bites@.len() == old(self).buf.bites@.len(),
                self.reader == old(self).reader,
                self.taken == old(self).taken,
                self.err == old(self).err,
                self.buf.bites@.subrange(0, pending as int) == old(self).buf.bites@.subrange(
                    red as int,
                    red + pending,
                ),
                self.buf.bites@.subrange(pending as int, pending + j) == self.reader@.subrange(
                    self.taken as int,
                    self.taken + j,
                ),
            decreases n - j,
        {
            let b = self.reader[self.taken + j];
            let ghost before = self.buf.bites@;
            self.buf.bites.set(pending + j, b);
            j += 1;
            proof {
                assert(self.buf.bites@.subrange(0, pending as int) =~= before.subrange(
                    0,
                    pending as int,
                ));
                assert(self.buf.bites@.subrange(pending as int, pending + j) =~= before.subrange(
                    pending as int,
                    pending + j - 1,
                ).push(b));
                assert(self.reader@.subrange(self.taken as int, self.taken + j)
                    =~= self.reader@.subrange(self.taken as int, self.taken + j - 1).push(b));
            }
        }
        self.taken = self.taken + n;
        self.buf.filled = self.buf.filled + n;
        if n == 0 {
            self.err = Some(BullshitError::default());
        }
        proof {
            let all = self.buf.bites@.subrange(0, self.buf.filled as int);
            assert(all =~= self.buf.bites@.subrange(0, pending as int)
                + self.buf.bites@.subrange(pending as int, pending + n));
            assert(self.reader@.subrange(self.taken - self.pending(), self.taken as int)
                =~= old(self).reader@.subrange(
                old(self).taken - pending,
                old(self).taken as int,
            ) + self.reader@.subrange(old(self).taken as int, old(self).taken + n));
            assert(self.buffered() =~= window(old(self).unread(), old(self).capacity()));
        }
    }

    /// What the buffer holds: the bytes that come next, as many as were
    /// taken from the source.
    pub closed spec fn buffered(&self) -> Seq<u8> {
        self.buf.bites@.subrange(self.buf.red as int, self.buf.filled as int)
    }

    /// Fills the buffer if nothing was ever taken from the source.
    ///
    /// A scanner whose buffer has been filled before, or that has found the
    /// end of the source, stays exactly as it is. Else the buffer takes from
    /// the source as much as it can hold, and the end of the source is noted
    /// if that is nothing. Nothing is handed out either way.
    pub fn load_empty(&mut self)
        requires
            old(self).wf(),
        ensures
            final(self).wf(),
            final(self).unread() == old(self).unread(),
            final(self).capacity() == old(self).capacity(),
            old(self).unfilled() && !old(self).ended() ==> {
                &&& final(self).buffered() == window(old(self).unread(), old(self).capacity())
                &&& final(self).pending() == window(old(self).unread(), old(self).capacity()).len()
                &&& final(self).ended() == (old(self).unread().len() == 0)
                &&& final(self).unfilled() == (old(self).unread().len() == 0)
            },
            !(old(self).unfilled() && !old(self).ended()) ==> *final(self) == *old(self),
    {
        if self.buf.filled == 0 && !self.cannot_read_anymore() {
            self.load();
        }
    }

    /// Whether the buffer holds nothing at its very front: nothing has been
    /// taken from the source yet, or the source had nothing to give.
    pub closed spec fn unfilled(&self) -> bool {
        self.buf.filled == 0
    }

    /// The next byte of the source, or the error that marks its end.
    pub fn next_byte(&mut self) -> (r: Result<u8, BullshitError>)
        requires
            old(self).wf(),
        ensures
            final(self).wf(),
            final(self).capacity() == old(self).capacity(),
            match r {
                Ok(b) => old(self).unread().len() > 0 && b == old(self).unread()[0]
                    && final(self).unread() == old(self).unread().skip(1),
                Err(e) => old(self).unread().len() == 0 && final(self).unread() == old(
                    self,
                ).unread() && e.text() == Some(EOF@) && final(self).ended(),
            },
    {
        if self.buf.red == self.buf.filled {
            if self.err.is_none() {
                self.load();
            }
        }
        if self.buf.red < self.buf.filled {
            let b = self.buf.bites[self.buf.red];
            proof {
                assert(self.buffered()[0] == b);
                assert(self.unread()[0] == self.reader@[self.taken - self.pending()]);
            }
            self.buf.red = self.buf.red + 1;
            proof {
                assert(self.unread() =~= old(self).unread().skip(1));
                assert(self.buffered() =~= self.reader@.subrange(
                    self.taken - self.pending(),
                    self.taken as int,
                ));
            }
            return Ok(b);
        }
        Err(BullshitError::default())
    }

    /// Hands out up to `want` bytes to the end of `out` and says how many.
    pub fn read(&mut self, out: &mut Vec<u8>, want: usize) -> (n: usize)
        requires
            old(self).wf(),
        ensures
            final(self).wf(),
            final(self).capacity() == old(self).capacity(),
            n == if want <= old(self).unread().len() {
                want as nat
            } else {
                old(self).unread().len()
            },
            final(out)@ == old(out)@ + old(self).unread().take(n as int),
            final(self).unread() == old(self).unread().skip(n as int),
    {
        let mut red: usize = 0;
        proof {
            assert(old(self).unread().take(0) =~= Seq::<u8>::empty());
            assert(out@ + Seq::<u8>::empty() =~= out@);
            assert(old(self).unread().skip(0) =~= old(self).unread());
        }
        while red < want
            invariant
                self.wf(),
                self.capacity() == old(self).capacity(),
                red <= want,
                red <= old(self).unread().len(),
                out@ == old(out)@ + old(self).unread().take(red as int),
                self.unread() == old(self).unread().skip(red as int),
                red == want || self.unread().len() > 0 || !self.ended() || red == old(
                    self,
                ).unread().len(),
            ensures
                red == want || red == old(self).unread().len(),
            decreases want - red, self.unread().len() + (if self.ended() { 0nat } else { 1nat }),
        {
            match self.next_byte() {
                Ok(b) => {
                    out.push(b);
                    red += 1;
                    proof {
                        assert(old(self).unread().take(red as int) =~= old(self).unread().take(
                            red - 1,
                        ).push(b));
                        assert(self.unread() =~= old(self).unread().skip(red as int));
                    }
                },
                Err(_) => {
                    break;
                },
            }
        }
        red
    }

    /// The next line: the text up to the next newline, without the newline
    /// and without the carriage returns before it, and the number of bytes
    /// that the line took from the source, newline included.
    ///
    /// The line and its newline must fit in the buffer. Without a newline in
    /// sight the scanner fails: with "buffer is not big enough" where the
    /// buffer is full, else with "EOF". A line that is no text fails too. A
    /// failure takes nothing from the source.
    pub fn next_line(&mut self) -> (r: Result<(String, usize), BullshitError>)
        requires
            old(self).wf(),
        ensures
            final(self).wf(),
            final(self).capacity() == old(self).capacity(),
            match line_verdict(old(self).unread(), old(self).capacity()) {
                LineVerdict::Line(line, n) => r matches Ok((s, m)) && encode_utf8(s@) == line && m
                    == n && final(self).unread() == old(self).unread().skip(n as int),
                LineVerdict::NotText => r matches Err(e) && e.text() == Some(NOT_UTF8@)
                    && final(self).unread() == old(self).unread(),
                LineVerdict::TooLong => r matches Err(e) && e.text() == Some(LINE_TOO_LONG@)
                    && final(self).unread() == old(self).unread(),
                LineVerdict::End => r matches Err(e) && e.text() == Some(EOF@)
                    && final(self).unread() == old(self).unread(),
            },
    {
        self.fill();
        let ghost w = self.buffered();
        match self.find_newline() {
            Some(i) => {
                let line = copy_range(self.buf.bites.as_slice(), self.buf.red, i);
                proof {
                    assert(line@ =~= w.take(i - self.buf.red));
                }
                let n = i + 1 - self.buf.red;
                match string_from_utf8(trim_line(line)) {
                    Some(s) => {
                        proof {
                            vstd::utf8::decode_utf8_encode_utf8(trim_cr(w.take(i - self.buf.red)));
                        }
                        self.consume(n);
                        Ok((s, n))
                    },
                    None => Err(BullshitError::new().msg(NOT_UTF8)),
                }
            },
            None => {
                if self.buf.filled - self.buf.red >= self.buf.bites.len() {
                    Err(BullshitError::new().msg(LINE_TOO_LONG))
                } else {
                    Err(BullshitError::default())
                }
            },
        }
    }

    /// Fills the buffer as far as the source allows.
    fn fill(&mut self)
        requires
            old(self).wf(),
        ensures
            final(self).wf(),
            final(self).unread() == old(self).unread(),
            final(self).capacity() == old(self).capacity(),
            final(self).buffered() == window(final(self).unread(), final(self).capacity()),
            final(self).pending() == final(self).buffered().len(),
    {
        if self.buf.filled - self.buf.red < self.buf.bites.len() && self.err.is_none() {
            self.load();
        } else {
            proof {
                assert(self.buffered() =~= window(self.unread(), self.capacity()));
            }
        }
    }

    /// Counts the first `n` pending bytes as handed out.
    fn consume(&mut self, n: usize)
        requires
            old(self).wf(),
            n <= old(self).pending(),
        ensures
            final(self).wf(),
            final(self).capacity() == old(self).capacity(),
            final(self).unread() == old(self).unread().skip(n as int),
    {
        self.buf.red = self.buf.red + n;
        proof {
            assert(self.unread() =~= old(self).unread().skip(n as int));
            assert(self.buffered() =~= self.reader@.subrange(
                self.taken - self.pending(),
                self.taken as int,
            ));
        }
    }

    /// The place in the buffer of the first newline that is pending.
    fn find_newline(&self) -> (r: Option<usize>)
        requires
            self.wf(),
        ensures
            match r {
                Some(i) => self.buf.red <= i < self.buf.filled && newline_at(self.buffered()) == i
                    - self.buf.red && self.buffered().len() == self.buf.filled - self.buf.red,
                None => newline_at(self.buffered()) < 0,
            },
    {
        let ghost w = self.buffered();
        let mut i: usize = self.buf.red;
        while i < self.buf.filled
            invariant
                self.wf(),
                self.buf.red <= i <= self.buf.filled,
                w == self.buffered(),
                forall|j: int| 0 <= j < i - self.buf.red ==> w[j] != 10,
            decreases self.buf.filled - i,
        {
            if self.buf.bites[i] == 10 {
                proof {
                    lemma_newline_at(w);
                    assert(w[i - self.buf.red] == 10);
                }
                return Some(i);
            }
            i += 1;
        }
        proof {
            lemma_newline_at(w);
        }
        None
    }

    /// The lines of the source, one after the other.
    pub fn lines(self) -> (l: Lines)
        requires
            self.wf(),
        ensures
            l.inner.wf(),
            l.inner.unread() == self.unread(),
            l.inner.capacity() == self.capacity(),
    {
        Lines { inner: self }
    }

    /// The bytes of the source, one after the other.
    pub fn bites(self) -> (b: Bytes)
        requires
            self.wf(),
        ensures
            b.inner.wf(),
            b.inner.unread() == self.unread(),
            b.inner.capacity() == self.capacity(),
    {
        Bytes { inner: self }
    }
}

/// Takes the carriage returns off the end of a line.
pub fn trim_line(line: Vec<u8>) -> (t: Vec<u8>)
    ensures
        t@ == trim_cr(line@),
{
    let mut t = line;
    while t.len() > 0 && t[t.len() - 1] == 13
        invariant
            trim_cr(t@) == trim_cr(line@),
        decreases t@.len(),
    {
        let ghost before = t@;
        t.pop();
        proof {
            assert(t@ =~= before.drop_last());
        }
    }
    t
}

/// The lines of a scanner.
#[derive(Debug)]
pub struct Lines {
    pub inner: BullshitScanner,
}

impl Lines {
    /// The next line and the number of bytes it took, or `None` where
    /// `next_line` fails.
    pub fn next(&mut self) -> (r: Option<(String, usize)>)
        requires
            old(self).inner.wf(),
        ensures
            final(self).inner.wf(),
            final(self).inner.capacity() == old(self).inner.capacity(),
            match line_verdict(old(self).inner.unread(), old(self).inner.capacity()) {
                LineVerdict::Line(line, n) => r matches Some((s, m)) && encode_utf8(s@) == line
                    && m == n && final(self).inner.unread() == old(self).inner.unread().skip(
                    n as int,
                ),
                _ => r is None && final(self).inner.unread() == old(self).inner.unread(),
            },
    {
        match self.inner.next_line() {
            Ok(l) => Some(l),
            Err(_) => None,
        }
    }
}

/// The bytes of a scanner.
#[derive(Debug)]
pub struct Bytes {
    pub inner: BullshitScanner,
}

impl Bytes {
    /// The next byte, or `None` at the end of the source.
    pub fn next(&mut self) -> (r: Option<u8>)
        requires
            old(self).inner.wf(),
        ensures
            final(self).inner.wf(),
            final(self).inner.capacity() == old(self).inner.capacity(),
            match r {
                Some(b) => old(self).inner.unread().len() > 0 && b == old(self).inner.unread()[0]
                    && final(self).inner.unread() == old(self).inner.unread().skip(1),
                None => old(self).inner.unread().len() == 0 && final(self).inner.unread() == old(
                    self,
                ).inner.unread(),
            },
    {
        match self.inner.next_byte() {
            Ok(b) => Some(b),
            Err(_) => None,
        }
    }
}

} // verus!
