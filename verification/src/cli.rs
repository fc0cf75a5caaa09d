//! The interactive shell's line editor: one byte of input at a time, with
//! carriage return or line feed submitting the line, backspace and delete
//! erasing, escape echoed as a caret, other control bytes ignored, and a hard
//! length cap. The I/O around it (reading bytes, echoing, running the
//! submitted command) belongs to the embedding program; the editing decisions
//! are made and verified here.

use vstd::prelude::*;

verus! {

/// Line feed.
pub const LF: u8 = 10;

/// Carriage return.
pub const CR: u8 = 13;

/// Delete.
pub const DL: u8 = 127;

/// Backspace.
pub const BS: u8 = 8;

/// Escape; echoed as a caret.
pub const ESC: u8 = 27;

/// The caret that stands in for an escape byte.
pub const CARET: u8 = 94;

/// Hard cap of one command line; the buffer never reaches it.
pub const MAX_CMD_LEN: usize = 256;

/// What the embedding program must do with one input byte.
pub enum LineAction {
    /// Run the submitted (nonempty) line, then prompt again.
    Submit(Vec<u8>),
    /// An empty line was ended: prompt again, run nothing.
    Newline,
    /// Echo this byte; it entered the buffer.
    Echo(u8),
    /// Erase the last echoed byte from the display.
    Erase,
    /// Nothing to do.
    Ignore,
}

/// The pending command line.
pub struct LineEditor {
    buf: Vec<u8>,
}

impl View for LineEditor {
    type V = Seq<u8>;

    closed spec fn view(&self) -> Seq<u8> {
        self.buf@
    }
}

impl LineEditor {
    /// The buffer always stays one byte short of the cap.
    pub open spec fn wf(self) -> bool {
        self@.len() < MAX_CMD_LEN
    }

    pub fn new() -> (r: LineEditor)
        ensures
            r.wf(),
            r@ == Seq::<u8>::empty(),
    {
        LineEditor { buf: Vec::new() }
    }

    /// Feeds one input byte. An escape byte is first replaced by a caret and
    /// then treated like any printable byte. Carriage return and line feed
    /// submit the buffered line when there is one; backspace and delete erase
    /// the last byte when there is one; other control bytes are ignored; a
    /// printable byte is buffered and echoed unless the line is at its cap.
    pub fn input(&mut self, byte: u8) -> (r: LineAction)
        requires
            old(self).wf(),
        ensures
            final(self).wf(),
            ({
                let b: u8 = if byte == ESC {
                    CARET
                } else {
                    byte
                };
                if b == CR || b == LF {
                    &&& final(self)@ == Seq::<u8>::empty()
                    &&& old(self)@.len() > 0 ==> r is Submit && r->Submit_0@ == old(self)@
                    &&& old(self)@.len() == 0 ==> r is Newline
                } else if b == BS || b == DL {
                    &&& old(self)@.len() > 0 ==> r is Erase && final(self)@ == old(
                        self,
                    )@.drop_last()
                    &&& old(self)@.len() == 0 ==> r is Ignore && final(self)@ == old(self)@
                } else if b < 32 {
                    r is Ignore && final(self)@ == old(self)@
                } else {
                    &&& old(self)@.len() < MAX_CMD_LEN - 1 ==> r is Echo && r->Echo_0 == b
                        && final(self)@ == old(self)@.push(b)
                    &&& old(self)@.len() >= MAX_CMD_LEN - 1 ==> r is Ignore && final(self)@ == old(
                        self,
                    )@
                }
            }),
    {
        let b: u8 = if byte == ESC {
            CARET
        } else {
            byte
        };
        if b == CR || b == LF {
            if self.buf.len() > 0 {
                let mut line: Vec<u8> = Vec::new();
                core::mem::swap(&mut line, &mut self.buf);
                LineAction::Submit(line)
            } else {
                LineAction::Newline
            }
        } else if b == BS || b == DL {
            if self.buf.len() > 0 {
                let _ = self.buf.pop();
                LineAction::Erase
            } else {
                LineAction::Ignore
            }
        } else if b < 32 {
            LineAction::Ignore
        } else {
            if self.buf.len() < MAX_CMD_LEN - 1 {
                self.buf.push(b);
                LineAction::Echo(b)
            } else {
                LineAction::Ignore
            }
        }
    }
}

} // verus!
