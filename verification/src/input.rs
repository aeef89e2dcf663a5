//! The line-editing input engine.
//!
//! [`InputHandler`] owns a single logical line of text, stored as UTF-8 bytes,
//! together with a cursor and two counters: the number of characters and the
//! number of characters whose encoding takes more than one byte. The second
//! counter exists so that a pure-ASCII buffer (the common case for ticker
//! symbols and short commands) never pays for a character-boundary scan: when
//! it is zero, a character index is its own byte offset.
//!
//! Every key event is handled by [`InputHandler::process_input`], which either
//! applies an edit and returns `None` or ends the editing session by returning
//! an [`Interruption`].

use vstd::prelude::*;

verus! {

use vstd::string::StringExecFns;
use vstd::utf8::char_is_scalar;
use vstd::utf8::decode_utf8;
use vstd::utf8::encode_scalar;
use vstd::utf8::encode_utf8;
use vstd::utf8::encode_utf8_decode_utf8;
use vstd::utf8::encode_utf8_valid_utf8;
use vstd::utf8::valid_utf8;

use crate::encoding::byte_offset;
use crate::encoding::encode_char;
use crate::encoding::is_multi_byte;
use crate::encoding::lemma_ascii_byte_offset;
use crate::encoding::lemma_encode_decompose;
use crate::encoding::lemma_encode_insert;
use crate::encoding::lemma_encode_len_ge;
use crate::encoding::lemma_encode_push;
use crate::encoding::lemma_encode_remove;
use crate::encoding::lemma_encode_scalar_lead;
use crate::encoding::lemma_encode_split;
use crate::encoding::lemma_multi_count_concat;
use crate::encoding::lemma_multi_count_insert;
use crate::encoding::lemma_multi_count_le_len;
use crate::encoding::lemma_multi_count_remove;
use crate::encoding::lemma_multi_count_single;
use crate::encoding::multi_byte_count;
use crate::encoding::remove_bytes;
use crate::encoding::splice_bytes;
use crate::encoding::width_from_lead;

/// Initial capacity of the byte buffer; lines are short ticker symbols and
/// commands, so a small buffer avoids reallocation in the common case.
const INPUT_BUFFER_CAPACITY: usize = 10;

/// A logical insertion point in the line.
///
/// `End` means "immediately after the last character". It is logically the
/// same place as `Pos(char_count)` but is tracked as its own state so that
/// repeated end-of-line typing appends without any index arithmetic. In every
/// reachable state `Pos(i)` satisfies `i < char_count`, so an empty buffer
/// always carries the `End` cursor.
#[derive(Debug, Clone, Copy)]
pub enum CursorPosition {
    Pos(usize),
    End,
}

/// A key event, already classified by the host terminal binding.
///
/// The engine is agnostic to the concrete terminal library: the surrounding
/// event loop translates whatever raw events it reads into these categories
/// and keys it does not care about into `Other`.
#[derive(Debug, Clone, Copy)]
pub enum Key {
    Char(char),
    Backspace,
    Delete,
    Left,
    Right,
    Home,
    End,
    Enter,
    Esc,
    Other,
}

/// Events which occur when the user tries exiting the editing mode.
#[derive(Debug)]
pub enum Interruption {
    /// Exit the editing mode and return the committed input.
    Enter(String),
    /// Exit the editing mode with nothing to commit.
    Esc,
}

/// Cursor after a Left key: one position back, or unchanged at the start;
/// from `End` it moves onto the last character of a non-empty line.
pub open spec fn left_of(cursor: CursorPosition, count: nat) -> CursorPosition {
    match cursor {
        CursorPosition::Pos(i) => if i > 0 {
            CursorPosition::Pos((i - 1) as usize)
        } else {
            CursorPosition::Pos(i)
        },
        CursorPosition::End => if count != 0 {
            CursorPosition::Pos((count - 1) as usize)
        } else {
            CursorPosition::End
        },
    }
}

/// Cursor after a Right key: one position forward, becoming `End` when it
/// passes the last character; unchanged at `End`.
pub open spec fn right_of(cursor: CursorPosition, count: nat) -> CursorPosition {
    match cursor {
        CursorPosition::Pos(i) => if i + 1 == count {
            CursorPosition::End
        } else {
            CursorPosition::Pos((i + 1) as usize)
        },
        CursorPosition::End => CursorPosition::End,
    }
}

/// Cursor after a Home key: the start of the line, which in an empty buffer
/// is the `End` state itself.
pub open spec fn home_of(count: nat) -> CursorPosition {
    if count == 0 {
        CursorPosition::End
    } else {
        CursorPosition::Pos(0)
    }
}

/// Buffer and cursor after typing character `c`: the character is inserted at
/// the cursor's index (appended at `End`) and the cursor advances past it.
pub open spec fn insert_of(chars: Seq<char>, cursor: CursorPosition, c: char) -> (Seq<
    char,
>, CursorPosition) {
    match cursor {
        CursorPosition::Pos(i) => (chars.insert(i as int, c), CursorPosition::Pos((i + 1) as usize)),
        CursorPosition::End => (chars.push(c), CursorPosition::End),
    }
}

/// Buffer and cursor after a Delete key: the character at the cursor's index
/// is removed and the cursor re-derives `End` when it now sits past the last
/// character; no-op at `End`.
pub open spec fn delete_of(chars: Seq<char>, cursor: CursorPosition) -> (Seq<char>, CursorPosition) {
    match cursor {
        CursorPosition::Pos(i) => if i < chars.len() {
            let rest = chars.remove(i as int);
            (rest, if i == rest.len() {
                CursorPosition::End
            } else {
                CursorPosition::Pos(i)
            })
        } else {
            (chars, cursor)
        },
        CursorPosition::End => (chars, cursor),
    }
}

/// Buffer and cursor after a Backspace key: the character left of the cursor
/// is removed and the cursor moves one position back (re-deriving `End` on an
/// emptied buffer); at `End` the last character of a non-empty line is
/// removed; no-op on an empty buffer or at position 0.
pub open spec fn backspace_of(chars: Seq<char>, cursor: CursorPosition) -> (Seq<
    char,
>, CursorPosition) {
    match cursor {
        CursorPosition::Pos(i) => if 0 < i <= chars.len() {
            let rest = chars.remove(i - 1);
            (rest, if rest.len() == 0 {
                CursorPosition::End
            } else {
                CursorPosition::Pos((i - 1) as usize)
            })
        } else {
            (chars, cursor)
        },
        CursorPosition::End => if chars.len() > 0 {
            (chars.drop_last(), CursorPosition::End)
        } else {
            (chars, cursor)
        },
    }
}

/// Relies on `core::str::from_utf8`: on bytes that are a valid UTF-8 encoding
/// it returns `Ok` with the string slice made of exactly those bytes, whose
/// characters are therefore the UTF-8 decoding of the bytes.
#[verifier::external_body]
fn bytes_to_str(bytes: &[u8]) -> (r: &str)
    requires
        valid_utf8(bytes@),
    ensures
        r@ == decode_utf8(bytes@),
{
    core::str::from_utf8(bytes).unwrap_or("")
}

/// Handler for inputs through all the session's editing interactions.
pub struct InputHandler {
    buffer: Vec<u8>,
    /// The characters the byte buffer encodes, kept as the verification model.
    text: Ghost<Seq<char>>,
    /// Number of characters; kept incrementally because the byte length of
    /// the buffer does not reveal it in O(1).
    char_count: usize,
    /// Number of characters encoded with more than one byte.
    multi_byte_chars: usize,
    cursor: CursorPosition,
}

impl InputHandler {
    /// The buffer contents as a sequence of characters.
    pub closed spec fn chars(&self) -> Seq<char> {
        self.text@
    }

    pub closed spec fn cursor(&self) -> CursorPosition {
        self.cursor
    }

    pub closed spec fn char_count(&self) -> nat {
        self.char_count as nat
    }

    pub closed spec fn multi_byte_chars(&self) -> nat {
        self.multi_byte_chars as nat
    }

    /// The byte buffer holds exactly the UTF-8 encoding of the character
    /// model.
    pub closed spec fn bytes_ok(&self) -> bool {
        self.buffer@ == encode_utf8(self.text@)
    }

    /// The two counters track the character model exactly.
    pub open spec fn counts_ok(&self) -> bool {
        &&& self.char_count() == self.chars().len()
        &&& self.multi_byte_chars() == multi_byte_count(self.chars())
    }

    /// The cursor addresses a character of the buffer or sits at the end; in
    /// an empty buffer only the end state is reachable.
    pub open spec fn cursor_ok(&self) -> bool {
        match self.cursor() {
            CursorPosition::Pos(i) => i < self.chars().len(),
            CursorPosition::End => true,
        }
    }

    pub open spec fn wf(&self) -> bool {
        &&& self.bytes_ok()
        &&& self.counts_ok()
        &&& self.cursor_ok()
    }

    /// Character index of the insertion point, with `End` reported as the
    /// character count.
    pub open spec fn cursor_index(&self) -> int {
        match self.cursor() {
            CursorPosition::Pos(i) => i as int,
            CursorPosition::End => self.chars().len() as int,
        }
    }

    pub fn new() -> (r: Self)
        ensures
            r.wf(),
            r.chars() == Seq::<char>::empty(),
            r.cursor() == CursorPosition::End,
    {
        let r = InputHandler {
            buffer: Vec::with_capacity(INPUT_BUFFER_CAPACITY),
            text: Ghost(Seq::empty()),
            char_count: 0,
            multi_byte_chars: 0,
            cursor: CursorPosition::End,
        };
        proof {
            assert(encode_utf8(Seq::<char>::empty()) =~= Seq::<u8>::empty());
        }
        r
    }

    /// Consumes one classified key event; returns `None` while the session
    /// stays open and an [`Interruption`] when the user commits or cancels.
    pub fn process_input(&mut self, key: Key) -> (r: Option<Interruption>)
        requires
            old(self).wf(),
        ensures
            final(self).wf(),
            match key {
                Key::Char(c) => r is None && (final(self).chars(), final(self).cursor())
                    == insert_of(old(self).chars(), old(self).cursor(), c),
                Key::Backspace => r is None && (final(self).chars(), final(self).cursor())
                    == backspace_of(old(self).chars(), old(self).cursor()),
                Key::Delete => r is None && (final(self).chars(), final(self).cursor())
                    == delete_of(old(self).chars(), old(self).cursor()),
                Key::Left => r is None && final(self).chars() == old(self).chars() && final(self).cursor() == left_of(old(self).cursor(), old(self).chars().len()),
                Key::Right => r is None && final(self).chars() == old(self).chars() && final(self).cursor() == right_of(old(self).cursor(), old(self).chars().len()),
                Key::Home => r is None && final(self).chars() == old(self).chars() && final(self).cursor() == home_of(old(self).chars().len()),
                Key::End => r is None && final(self).chars() == old(self).chars() && final(self).cursor() == CursorPosition::End,
                Key::Enter => final(self).chars() == Seq::<char>::empty() && final(self).cursor()
                    == CursorPosition::End && (r matches Some(Interruption::Enter(text)) && text@
                    == old(self).chars()),
                Key::Esc => final(self).chars() == Seq::<char>::empty() && final(self).cursor()
                    == CursorPosition::End && if old(self).chars().len() == 0 {
                    r == Some(Interruption::Esc)
                } else {
                    r is None
                },
                Key::Other => r is None && *final(self) == *old(self),
            },
    {
        match key {
            Key::Backspace => {
                self.backspace_key();
                None
            },
            Key::Left => {
                self.left_key();
                None
            },
            Key::Right => {
                self.right_key();
                None
            },
            Key::Home => {
                if self.char_count == 0 {
                    self.cursor = CursorPosition::End;
                } else {
                    self.cursor = CursorPosition::Pos(0);
                }
                None
            },
            Key::End => {
                self.cursor = CursorPosition::End;
                None
            },
            Key::Delete => {
                self.delete_key();
                None
            },
            Key::Char(c) => {
                self.add_char(c);
                None
            },
            Key::Enter => self.enter_key(),
            Key::Esc => self.esc_key(),
            Key::Other => None,
        }
    }

    /// Inserts `c` at the cursor and advances the cursor past it.
    pub fn add_char(&mut self, c: char)
        requires
            old(self).wf(),
        ensures
            final(self).wf(),
            (final(self).chars(), final(self).cursor()) == insert_of(
                old(self).chars(),
                old(self).cursor(),
                c,
            ),
    {
        let ghost s = self.text@;
        let enc = encode_char(c);
        proof {
            char_is_scalar(c);
            assert(enc@.len() > 1 <==> is_multi_byte(c));
        }
        match self.cursor {
            CursorPosition::Pos(index) => {
                let byte_pos = self.find_byte_offset(index);
                proof {
                    lemma_encode_split(s, index as int);
                    assert(byte_pos <= self.buffer@.len());
                    assert(self.buffer@.take(byte_pos as int) =~= encode_utf8(
                        s.take(index as int),
                    ));
                    assert(self.buffer@.skip(byte_pos as int) =~= encode_utf8(
                        s.skip(index as int),
                    ));
                }
                splice_bytes(&mut self.buffer, byte_pos, &enc);
                proof {
                    lemma_encode_insert(s, index as int, c);
                    assert(self.buffer@ =~= encode_utf8(s.insert(index as int, c)));
                }
                self.text = Ghost(s.insert(index as int, c));
                let n: usize = self.buffer.len();
                proof {
                    lemma_encode_len_ge(self.text@);
                    lemma_multi_count_le_len(self.text@);
                    lemma_multi_count_insert(s, index as int, c);
                    assert(self.char_count as int + 1 <= n as int);
                }
                self.char_count = self.char_count + 1;
                if enc.len() > 1 {
                    self.multi_byte_chars = self.multi_byte_chars + 1;
                }
                proof {
                    assert(index as int + 1 <= self.char_count as int);
                }
                self.cursor = CursorPosition::Pos(index + 1);
            },
            CursorPosition::End => {
                let end_pos: usize = self.buffer.len();
                proof {
                    assert(self.buffer@.take(end_pos as int) =~= self.buffer@);
                    assert(self.buffer@.skip(end_pos as int) =~= Seq::<u8>::empty());
                }
                splice_bytes(&mut self.buffer, end_pos, &enc);
                proof {
                    lemma_encode_push(s, c);
                    assert(self.buffer@ =~= encode_utf8(s.push(c)));
                }
                self.text = Ghost(s.push(c));
                let n: usize = self.buffer.len();
                proof {
                    lemma_encode_len_ge(self.text@);
                    lemma_multi_count_le_len(self.text@);
                    assert(s.push(c) =~= s + seq![c]);
                    lemma_multi_count_concat(s, seq![c]);
                    lemma_multi_count_single(c);
                    assert(self.char_count as int + 1 <= n as int);
                }
                self.char_count = self.char_count + 1;
                if enc.len() > 1 {
                    self.multi_byte_chars = self.multi_byte_chars + 1;
                }
            },
        }
    }

    /// Moves the cursor one position to the left; no-op at the start.
    pub fn left_key(&mut self)
        requires
            old(self).wf(),
        ensures
            final(self).wf(),
            final(self).chars() == old(self).chars(),
            final(self).cursor() == left_of(old(self).cursor(), old(self).chars().len()),
    {
        match self.cursor {
            CursorPosition::Pos(index) => {
                if index > 0 {
                    self.cursor = CursorPosition::Pos(index - 1);
                }
            },
            CursorPosition::End => {
                if self.char_count != 0 {
                    self.cursor = CursorPosition::Pos(self.char_count - 1);
                }
            },
        }
    }

    /// Moves the cursor one position to the right, re-deriving `End` past the
    /// last character; no-op at `End`.
    pub fn right_key(&mut self)
        requires
            old(self).wf(),
        ensures
            final(self).wf(),
            final(self).chars() == old(self).chars(),
            final(self).cursor() == right_of(old(self).cursor(), old(self).chars().len()),
    {
        match self.cursor {
            CursorPosition::Pos(index) => {
                let new_pos: usize = index + 1;
                if new_pos == self.char_count {
                    self.cursor = CursorPosition::End;
                } else {
                    self.cursor = CursorPosition::Pos(new_pos);
                }
            },
            CursorPosition::End => {},
        }
    }

    /// Removes the character at the cursor; no-op at `End`.
    pub fn delete_key(&mut self)
        requires
            old(self).wf(),
        ensures
            final(self).wf(),
            (final(self).chars(), final(self).cursor()) == delete_of(
                old(self).chars(),
                old(self).cursor(),
            ),
    {
        match self.cursor {
            CursorPosition::Pos(index) => {
                self.remove_char(index);
                if index == self.char_count {
                    self.cursor = CursorPosition::End;
                }
            },
            CursorPosition::End => {},
        }
    }

    /// Removes the character left of the cursor and moves the cursor back;
    /// at `End` removes the last character; no-op when there is nothing to
    /// the left.
    pub fn backspace_key(&mut self)
        requires
            old(self).wf(),
        ensures
            final(self).wf(),
            (final(self).chars(), final(self).cursor()) == backspace_of(
                old(self).chars(),
                old(self).cursor(),
            ),
    {
        let ghost s = self.text@;
        match self.cursor {
            CursorPosition::Pos(index) => {
                if index > 0 {
                    self.remove_char(index - 1);
                    if self.char_count == 0 {
                        self.cursor = CursorPosition::End;
                    } else {
                        self.cursor = CursorPosition::Pos(index - 1);
                    }
                }
            },
            CursorPosition::End => {
                if !self.buffer.is_empty() {
                    proof {
                        lemma_encode_len_ge(s);
                        assert(s.len() > 0);
                        assert(s.remove(s.len() - 1) =~= s.drop_last());
                    }
                    self.remove_char(self.char_count - 1);
                }
            },
        }
    }

    /// Commits the line: hands the buffer contents out and resets the editor.
    pub fn enter_key(&mut self) -> (r: Option<Interruption>)
        requires
            old(self).wf(),
        ensures
            final(self).wf(),
            final(self).chars() == Seq::<char>::empty(),
            final(self).cursor() == CursorPosition::End,
            r matches Some(Interruption::Enter(text)) && text@ == old(self).chars(),
    {
        proof {
            encode_utf8_valid_utf8(self.text@);
            encode_utf8_decode_utf8(self.text@);
        }
        let committed = String::from_str(bytes_to_str(self.buffer.as_slice()));
        self.clear();
        Some(Interruption::Enter(committed))
    }

    /// Two-stage escape: a non-empty buffer is cleared first; only an escape
    /// on an already empty buffer cancels the session.
    pub fn esc_key(&mut self) -> (r: Option<Interruption>)
        requires
            old(self).wf(),
        ensures
            final(self).wf(),
            final(self).chars() == Seq::<char>::empty(),
            final(self).cursor() == CursorPosition::End,
            if old(self).chars().len() == 0 {
                r == Some(Interruption::Esc)
            } else {
                r is None
            },
    {
        if self.char_count == 0 {
            proof {
                assert(self.text@ =~= Seq::<char>::empty());
            }
            Some(Interruption::Esc)
        } else {
            self.clear();
            None
        }
    }

    /// Removes the character at character index `index`. When the buffer is
    /// pure ASCII the byte offset is the index itself; otherwise the buffer
    /// is scanned to the character's boundary. Leaves the cursor untouched,
    /// so the caller re-establishes the cursor range itself.
    fn remove_char(&mut self, index: usize)
        requires
            old(self).bytes_ok(),
            old(self).counts_ok(),
            index < old(self).chars().len(),
        ensures
            final(self).bytes_ok(),
            final(self).counts_ok(),
            final(self).chars() == old(self).chars().remove(index as int),
            final(self).cursor() == old(self).cursor(),
    {
        let ghost s = self.text@;
        let byte_pos = self.find_byte_offset(index);
        proof {
            char_is_scalar(s[index as int]);
            lemma_encode_decompose(s, index as int);
            lemma_encode_scalar_lead(s[index as int] as u32);
            assert(self.buffer@[byte_pos as int] == encode_scalar(s[index as int] as u32)[0]);
        }
        let b: u8 = self.buffer[byte_pos];
        let w = width_from_lead(b);
        proof {
            assert(w as int == encode_scalar(s[index as int] as u32).len());
            assert(w > 1 <==> is_multi_byte(s[index as int]));
        }
        remove_bytes(&mut self.buffer, byte_pos, w);
        proof {
            lemma_encode_remove(s, index as int);
            assert(old(self).buffer@.take(byte_pos as int) =~= encode_utf8(s.take(index as int)));
            assert(old(self).buffer@.skip(byte_pos + w) =~= encode_utf8(s.skip(index as int + 1)));
            assert(self.buffer@ =~= encode_utf8(s.remove(index as int)));
            lemma_multi_count_remove(s, index as int);
        }
        self.text = Ghost(s.remove(index as int));
        self.char_count = self.char_count - 1;
        if w > 1 {
            self.multi_byte_chars = self.multi_byte_chars - 1;
        }
    }

    /// Byte offset of the character at `index`: the index itself on the
    /// pure-ASCII fast path, otherwise found by walking character boundaries
    /// from the start of the buffer.
    fn find_byte_offset(&self, index: usize) -> (o: usize)
        requires
            self.bytes_ok(),
            self.counts_ok(),
            index <= self.chars().len(),
        ensures
            o as int == byte_offset(self.chars(), index as int),
    {
        let ghost s = self.text@;
        if self.multi_byte_chars == 0 {
            proof {
                lemma_ascii_byte_offset(s, index as int);
            }
            index
        } else {
            let mut k: usize = 0;
            let mut j: usize = 0;
            proof {
                assert(s.take(0) =~= Seq::<char>::empty());
            }
            while k < index
                invariant
                    self.bytes_ok(),
                    self.counts_ok(),
                    s == self.text@,
                    k <= index <= s.len(),
                    j as int == byte_offset(s, k as int),
                decreases index - k,
            {
                proof {
                    char_is_scalar(s[k as int]);
                    lemma_encode_decompose(s, k as int);
                    lemma_encode_scalar_lead(s[k as int] as u32);
                    assert(self.buffer@[j as int] == encode_scalar(s[k as int] as u32)[0]);
                }
                let b: u8 = self.buffer[j];
                let w = width_from_lead(b);
                let n: usize = self.buffer.len();
                proof {
                    assert(w as int == encode_scalar(s[k as int] as u32).len());
                    assert(j as int + w as int <= n as int);
                }
                j = j + w;
                k = k + 1;
            }
            j
        }
    }

    /// Resets the editor to an empty line with the cursor at the end.
    pub fn clear(&mut self)
        ensures
            final(self).wf(),
            final(self).chars() == Seq::<char>::empty(),
            final(self).cursor() == CursorPosition::End,
    {
        self.buffer.clear();
        self.text = Ghost(Seq::empty());
        self.char_count = 0;
        self.multi_byte_chars = 0;
        self.cursor = CursorPosition::End;
        proof {
            assert(encode_utf8(Seq::<char>::empty()) =~= Seq::<u8>::empty());
        }
    }

    /// The current line, for rendering; read-only.
    pub fn current_input(&self) -> (r: &str)
        requires
            self.wf(),
        ensures
            r@ == self.chars(),
    {
        proof {
            encode_utf8_valid_utf8(self.text@);
            encode_utf8_decode_utf8(self.text@);
        }
        bytes_to_str(self.buffer.as_slice())
    }

    /// The cursor as a character index, with `End` reported as the character
    /// count; for caret placement by a renderer.
    pub fn get_cursor_position(&self) -> (r: usize)
        requires
            self.wf(),
        ensures
            r as int == self.cursor_index(),
    {
        match self.cursor {
            CursorPosition::Pos(i) => i,
            CursorPosition::End => self.char_count,
        }
    }

    /// Byte length of the line's UTF-8 encoding; for renderers that size by
    /// bytes.
    pub fn byte_len(&self) -> (n: usize)
        requires
            self.wf(),
        ensures
            n == encode_utf8(self.chars()).len(),
    {
        self.buffer.len()
    }
}

/// State reached from `(chars, cursor)` by typing the characters of `cs` in
/// order.
pub open spec fn insert_all(chars: Seq<char>, cursor: CursorPosition, cs: Seq<char>) -> (Seq<
    char,
>, CursorPosition)
    decreases cs.len(),
{
    if cs.len() == 0 {
        (chars, cursor)
    } else {
        let next = insert_of(chars, cursor, cs[0]);
        insert_all(next.0, next.1, cs.drop_first())
    }
}

/// Typing any sequence of characters with the cursor at the end appends them
/// in order and keeps the cursor at the end. Together with the contract of
/// [`InputHandler::enter_key`], typing `c1..cn` into a fresh editor and
/// pressing Enter commits exactly `"c1c2...cn"` and resets the editor.
pub proof fn lemma_typing_appends(chars: Seq<char>, cs: Seq<char>)
    ensures
        insert_all(chars, CursorPosition::End, cs) == (chars + cs, CursorPosition::End),
    decreases cs.len(),
{
    if cs.len() == 0 {
        assert(chars + cs =~= chars);
    } else {
        lemma_typing_appends(chars.push(cs[0]), cs.drop_first());
        assert(chars.push(cs[0]) + cs.drop_first() =~= chars + cs);
    }
}

/// Round trip from a fresh editor: typing `c1..cn` with no navigation yields
/// a buffer holding exactly `c1..cn` with the cursor at the end, which
/// [`InputHandler::enter_key`] then commits verbatim while resetting the
/// state to empty.
pub proof fn lemma_typing_from_empty(cs: Seq<char>)
    ensures
        insert_all(Seq::<char>::empty(), CursorPosition::End, cs) == (cs, CursorPosition::End),
{
    lemma_typing_appends(Seq::<char>::empty(), cs);
    assert(Seq::<char>::empty() + cs =~= cs);
}

/// The no-op edits: Left at the start of the line, Right and Delete at the
/// end, and Backspace on an empty buffer leave buffer and cursor unchanged.
pub proof fn lemma_noop_keys(chars: Seq<char>)
    ensures
        left_of(CursorPosition::Pos(0), chars.len()) == CursorPosition::Pos(0),
        right_of(CursorPosition::End, chars.len()) == CursorPosition::End,
        delete_of(chars, CursorPosition::End) == (chars, CursorPosition::End),
        backspace_of(Seq::<char>::empty(), CursorPosition::End) == (
            Seq::<char>::empty(),
            CursorPosition::End,
        ),
{
}

} // verus!
