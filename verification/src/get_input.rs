//! Decoding the bytes a terminal sends into key presses.
use crate::input::{CursorDirection, Input};
use crate::small::{
    bytes4, bytes4_as_slice, bytes4_clear, bytes4_len, bytes4_new, bytes4_push, bytes6,
    bytes6_as_slice, bytes6_capacity, bytes6_len, bytes6_new, bytes6_push, bytes6_remove,
    bytes6_try_push,
};
use tinyvec::ArrayVec;
use vstd::prelude::*;
use vstd::string::StringSliceAdditionalSpecFns;
use vstd::utf8::{
    char_u32_cast, decode_utf8, encode_scalar, encode_utf8, encode_utf8_decode_utf8,
    encode_utf8_valid_utf8, has_width_1_encoding, has_width_2_encoding, has_width_3_encoding,
    last_continuation_byte, leading_byte_width_1, leading_byte_width_2, leading_byte_width_3,
    second_last_continuation_byte, valid_utf8,
};

verus! {

/// Where the bytes come from, one at a time; `None` when none is waiting.
pub trait GetCharSource {
    fn get_char(&mut self) -> Option<u8>;
}

/// Calls `core::str::from_utf8`: the bytes as a string slice when they are
/// valid UTF-8, else nothing.
#[verifier::external_body]
fn utf8_str(bytes: &[u8]) -> (r: Option<&str>)
    ensures
        r is Some <==> valid_utf8(bytes@),
        r matches Some(s) ==> s.spec_bytes() == bytes@,
{
    core::str::from_utf8(bytes).ok()
}

/// The state of an escape sequence being read, as the contracts see it.
pub enum SeqView {
    Waiting,
    Fill(Seq<u8>),
    Drain(Seq<u8>),
}

/// Reading an escape sequence: nothing pending, bytes gathered so far, or
/// bytes that turned out to be no known sequence and are handed out one by
/// one.
#[derive(Debug, Clone, Copy)]
pub enum SeqMode {
    Waiting,
    Fill(ArrayVec<[u8; 6]>),
    Drain(ArrayVec<[u8; 6]>),
}

/// A gathered sequence holds one to five bytes; one being handed out holds
/// one to six.
pub open spec fn seq_wf(v: SeqView) -> bool {
    match v {
        SeqView::Waiting => true,
        SeqView::Fill(s) => 1 <= s.len() < 6,
        SeqView::Drain(s) => 1 <= s.len() <= 6,
    }
}

/// `SeqMode::push` can add a byte: the sequence has room.
pub open spec fn seq_push_ok(v: SeqView) -> bool {
    match v {
        SeqView::Waiting => true,
        SeqView::Fill(s) => s.len() < 6,
        SeqView::Drain(s) => s.len() < 6,
    }
}

/// The state after `SeqMode::push`: a gathered sequence that reaches six
/// bytes is handed out.
pub open spec fn seq_push_spec(v: SeqView, ch: u8) -> SeqView {
    match v {
        SeqView::Waiting => SeqView::Fill(seq![ch]),
        SeqView::Fill(s) => if s.len() + 1 == 6 {
            SeqView::Drain(s.push(ch))
        } else {
            SeqView::Fill(s.push(ch))
        },
        SeqView::Drain(s) => SeqView::Drain(s.push(ch)),
    }
}

impl SeqMode {
    pub closed spec fn view(self) -> SeqView {
        match self {
            SeqMode::Waiting => SeqView::Waiting,
            SeqMode::Fill(v) => SeqView::Fill(bytes6(v)),
            SeqMode::Drain(v) => SeqView::Drain(bytes6(v)),
        }
    }

    pub fn reset(&mut self)
        ensures
            final(self).view() == SeqView::Waiting,
    {
        *self = Self::Waiting;
    }

    pub fn push(&mut self, ch: u8)
        requires
            seq_push_ok(old(self).view()),
        ensures
            final(self).view() == seq_push_spec(old(self).view(), ch),
    {
        match self {
            SeqMode::Waiting => {
                let mut v = bytes6_new();
                bytes6_push(&mut v, ch);
                assert(bytes6(v) == seq![ch]);
                *self = Self::Fill(v);
            },
            SeqMode::Fill(array_vec) => {
                let mut t = *array_vec;
                bytes6_push(&mut t, ch);
                if bytes6_len(&t) == bytes6_capacity(&t) {
                    *self = Self::Drain(t);
                } else {
                    *self = Self::Fill(t);
                }
            },
            SeqMode::Drain(x) => {
                let mut t = *x;
                let r = bytes6_try_push(&mut t, ch);
                *self = Self::Drain(t);
            },
        }
    }
}

/// Decoding a multi-byte character: how many continuation bytes the first
/// byte announced, and the bytes read so far.
#[derive(Debug, Clone, Copy)]
struct Utf8Encoder {
    /// set by first byte, how many continuation bytes we expect
    expected_len: usize,
    buf: ArrayVec<[u8; 4]>,
}

/// A byte that cannot continue or start a character here.
pub struct Utf8Error;

/// The decoder's state after `push(ch)` from `(expected, buf)`, and its
/// answer: a whole character, nothing yet (`Ok(None)`), or an error.
pub open spec fn utf8_push_spec(expected: usize, buf: Seq<u8>, ch: u8) -> (
    usize,
    Seq<u8>,
    Result<Option<char>, ()>,
) {
    if ch <= 0x7f {
        if expected == 0 {
            (expected, buf, Ok(Some(ch as char)))
        } else {
            (expected, buf, Err(()))
        }
    } else if 0xc0 <= ch <= 0xdf {
        if expected == 0 {
            (1, seq![ch], Ok(None))
        } else {
            (expected, buf, Err(()))
        }
    } else if 0xe0 <= ch <= 0xef {
        if expected == 0 {
            (2, seq![ch], Ok(None))
        } else {
            (expected, buf, Err(()))
        }
    } else if 0x80 <= ch <= 0xbf {
        if buf.len() > expected || expected == 0 {
            (expected, buf, Err(()))
        } else {
            let b2 = buf.push(ch);
            if b2.len() == expected + 1 {
                if !valid_utf8(b2) {
                    (expected, b2, Err(()))
                } else if decode_utf8(b2).len() > 0 {
                    (0, Seq::empty(), Ok(Some(decode_utf8(b2)[0])))
                } else {
                    (0, Seq::empty(), Err(()))
                }
            } else {
                (expected, b2, Ok(None))
            }
        }
    } else {
        (expected, buf, Err(()))
    }
}

impl Utf8Encoder {
    #[verifier::type_invariant]
    spec fn wf(self) -> bool {
        &&& self.expected_len <= 2
        &&& bytes4(self.buf).len() <= 3
    }

    spec fn expected(self) -> usize {
        self.expected_len
    }

    spec fn bytes(self) -> Seq<u8> {
        bytes4(self.buf)
    }

    fn new() -> (r: Self)
        ensures
            r.expected() == 0,
            r.bytes() == Seq::<u8>::empty(),
    {
        Self { expected_len: 0, buf: bytes4_new() }
    }

    fn reset(&mut self)
        ensures
            final(self).expected() == 0,
            final(self).bytes() == Seq::<u8>::empty(),
    {
        proof {
            use_type_invariant(&*self);
        }
        self.expected_len = 0;
        let mut b = self.buf;
        bytes4_clear(&mut b);
        self.buf = b;
    }

    fn push(&mut self, ch: u8) -> (r: Result<Option<char>, Utf8Error>)
        ensures
            ({
                let (e, b, res) = utf8_push_spec(old(self).expected(), old(self).bytes(), ch);
                &&& final(self).expected() == e
                &&& final(self).bytes() == b
                &&& match res {
                    Ok(o) => r == Ok::<Option<char>, Utf8Error>(o),
                    Err(_) => r is Err,
                }
            }),
    {
        proof {
            use_type_invariant(&*self);
        }
        if ch <= 0x7f {
            if self.expected_len == 0 {
                Ok(Some(ch as char))
            } else {
                Err(Utf8Error)
            }
        } else if 0xc0 <= ch && ch <= 0xdf {
            // two-byte codepoint
            if self.expected_len == 0 {
                let mut buf = bytes4_new();
                bytes4_push(&mut buf, ch);
                assert(bytes4(buf) == seq![ch]);
                *self = Self { expected_len: 1, buf };
                Ok(None)
            } else {
                Err(Utf8Error)
            }
        } else if 0xe0 <= ch && ch <= 0xef {
            // three-byte codepoint
            if self.expected_len == 0 {
                let mut buf = bytes4_new();
                bytes4_push(&mut buf, ch);
                assert(bytes4(buf) == seq![ch]);
                *self = Self { expected_len: 2, buf };
                Ok(None)
            } else {
                Err(Utf8Error)
            }
        } else if 0x80 <= ch && ch <= 0xbf {
            let len = bytes4_len(&self.buf);
            if len > self.expected_len || self.expected_len == 0 {
                return Err(Utf8Error);
            }
            let mut buf = self.buf;
            bytes4_push(&mut buf, ch);
            *self = Self { expected_len: self.expected_len, buf };
            if len + 1 == self.expected_len + 1 {
                let s = match utf8_str(bytes4_as_slice(&self.buf)) {
                    Some(s) => s,
                    None => {
                        return Err(Utf8Error);
                    },
                };
                proof {
                    encode_utf8_decode_utf8(s@);
                }
                let ret = if s.unicode_len() > 0 {
                    Ok(Some(s.get_char(0)))
                } else {
                    Err(Utf8Error)
                };
                self.reset();
                ret
            } else {
                Ok(None)
            }
        } else {
            Err(Utf8Error)
        }
    }
}

/// The decoder's state as the contracts see it: how many continuation bytes
/// are expected, and the bytes of the character read so far.
pub struct EncView {
    pub expected: usize,
    pub bytes: Seq<u8>,
}

/// The decoder in its start state.
pub open spec fn enc_reset() -> EncView {
    EncView { expected: 0, bytes: Seq::empty() }
}

/// `emit_char`: Delete is Backspace, a line end is Enter, any other byte
/// goes to the UTF-8 decoder, and a decoding error starts it afresh.
pub open spec fn emit_spec(enc: EncView, ch: u8) -> (EncView, Option<Input>) {
    if ch == 127 {
        (enc_reset(), Some(Input::Backspace))
    } else if ch == 13 || ch == 10 {
        (enc_reset(), Some(Input::Enter))
    } else {
        let (e, b, res) = utf8_push_spec(enc.expected, enc.bytes, ch);
        match res {
            Ok(Some(c)) => (EncView { expected: e, bytes: b }, Some(Input::Char(c))),
            Ok(None) => (EncView { expected: e, bytes: b }, None),
            Err(_) => (enc_reset(), None),
        }
    }
}

/// A gathered sequence that is a known key: the arrows (`ESC [ A` to
/// `ESC [ D`) and `ESC [ digit ~` (Page Up for 5, Page Down for 6, nothing
/// for the other digits).
pub open spec fn known_sequence(t: Seq<u8>) -> Option<Option<Input>> {
    if t =~= seq![0x1bu8, 91, 65] {
        Some(Some(Input::Arrow(CursorDirection::Up)))
    } else if t =~= seq![0x1bu8, 91, 66] {
        Some(Some(Input::Arrow(CursorDirection::Down)))
    } else if t =~= seq![0x1bu8, 91, 67] {
        Some(Some(Input::Arrow(CursorDirection::Right)))
    } else if t =~= seq![0x1bu8, 91, 68] {
        Some(Some(Input::Arrow(CursorDirection::Left)))
    } else if t.len() == 4 && t[0] == 0x1b && t[1] == 91 && 48 <= t[2] <= 57 && t[3] == 126 {
        if t[2] == 53 {
            Some(Some(Input::PageUp))
        } else if t[2] == 54 {
            Some(Some(Input::PageDown))
        } else {
            Some(None)
        }
    } else {
        None
    }
}

/// What `getch` does once it has asked the source for a byte and got `b`:
/// no byte ends a lone Escape, or hands out the bytes gathered; an Escape
/// starts a sequence; a byte inside a sequence is gathered and a known
/// sequence becomes its key; any other byte is decoded.
pub open spec fn feed_spec(seq: SeqView, enc: EncView, b: Option<u8>) -> (SeqView, EncView, Option<Input>) {
    match b {
        None => match seq {
            SeqView::Fill(av) => if av =~= seq![0x1bu8] {
                (SeqView::Waiting, enc, Some(Input::Escape))
            } else {
                (SeqView::Drain(av), enc, None)
            },
            _ => (seq, enc, None),
        },
        Some(ch) => if seq is Waiting && ch == 0x1b {
            (SeqView::Fill(seq![ch]), enc, None)
        } else if seq is Fill {
            let s2 = seq_push_spec(seq, ch);
            match s2 {
                SeqView::Fill(t) => match known_sequence(t) {
                    Some(out) => (SeqView::Waiting, enc, out),
                    None => (s2, enc, None),
                },
                _ => (s2, enc, None),
            }
        } else {
            let (e, out) = emit_spec(enc, ch);
            (seq, e, out)
        },
    }
}

/// Decodes the bytes of `src` into key presses.
pub struct GetChar<Src> {
    seq: SeqMode,
    src: Src,
    enc: Utf8Encoder,
}

impl<Src> GetChar<Src> {
    /// The sequence state is consistent: gathered bytes leave room for one
    /// more, bytes being handed out are not all gone.
    pub closed spec fn wf(self) -> bool {
        seq_wf(self.seq.view())
    }

    /// Checks `wf`.
    pub fn is_consistent(&self) -> (r: bool)
        ensures
            r == self.wf(),
    {
        match self.seq {
            SeqMode::Waiting => true,
            SeqMode::Fill(v) => {
                let n = bytes6_len(&v);
                1 <= n && n < 6
            },
            SeqMode::Drain(v) => {
                let n = bytes6_len(&v);
                1 <= n && n <= 6
            },
        }
    }

    pub closed spec fn seq_view(self) -> SeqView {
        self.seq.view()
    }

    pub closed spec fn enc_view(self) -> EncView {
        EncView { expected: self.enc.expected(), bytes: self.enc.bytes() }
    }

    pub closed spec fn source(self) -> Src {
        self.src
    }
}

impl<Src: GetCharSource> GetChar<Src> {
    pub fn new(src: Src) -> (r: Self)
        ensures
            r.wf(),
            r.seq_view() == SeqView::Waiting,
            r.enc_view() == enc_reset(),
            r.source() == src,
    {
        Self { seq: SeqMode::Waiting, src, enc: Utf8Encoder::new() }
    }

    pub fn emit_char(&mut self, ch: u8) -> (r: Option<Input>)
        ensures
            (final(self).enc_view(), r) == emit_spec(old(self).enc_view(), ch),
            final(self).seq_view() == old(self).seq_view(),
            final(self).wf() == old(self).wf(),
    {
        let x = ch;
        if x == 127 {
            self.enc = Utf8Encoder::new();
            return Some(Input::Backspace);
        }
        if x == 13u8 || x == 10u8 {
            self.enc = Utf8Encoder::new();
            return Some(Input::Enter);
        }
        let mut enc = self.enc;
        let res = enc.push(ch);
        self.enc = enc;
        match res {
            Ok(Some(ch)) => Some(Input::Char(ch)),
            Ok(None) => None,
            Err(_) => {
                self.enc = Utf8Encoder::new();
                None
            },
        }
    }

    /// The rest of `getch` once a byte has been asked for: `b` is what the
    /// source gave.
    pub fn feed(&mut self, b: Option<u8>) -> (r: Option<Input>)
        requires
            old(self).wf(),
            !(old(self).seq_view() is Drain),
        ensures
            final(self).wf(),
            (final(self).seq_view(), final(self).enc_view(), r) == feed_spec(
                old(self).seq_view(),
                old(self).enc_view(),
                b,
            ),
    {
        let ch = match b {
            Some(ch) => ch,
            None => {
                if let SeqMode::Fill(av) = self.seq {
                    let sl = bytes6_as_slice(&av);
                    if sl.len() == 1 && sl[0] == 0x1b {
                        assert(bytes6(av) =~= seq![0x1bu8]);
                        self.seq = SeqMode::Waiting;
                        return Some(Input::Escape);
                    }
                    self.seq = SeqMode::Drain(av);
                }
                return None;
            },
        };
        if let SeqMode::Waiting = self.seq {
            if ch == 0x1b {
                let mut sq = self.seq;
                sq.push(ch);
                self.seq = sq;
                return None;
            }
        }
        if let SeqMode::Fill(_) = self.seq {
            let mut sq = self.seq;
            sq.push(ch);
            self.seq = sq;
            if let SeqMode::Fill(t) = self.seq {
                let sl = bytes6_as_slice(&t);
                let n = sl.len();
                if n == 3 && sl[0] == 0x1b && sl[1] == 91u8 {
                    let k = sl[2];
                    let dir = if k == 65u8 {
                        Some(CursorDirection::Up)
                    } else if k == 66u8 {
                        Some(CursorDirection::Down)
                    } else if k == 67u8 {
                        Some(CursorDirection::Right)
                    } else if k == 68u8 {
                        Some(CursorDirection::Left)
                    } else {
                        None
                    };
                    if let Some(d) = dir {
                        self.seq = SeqMode::Waiting;
                        return Some(Input::Arrow(d));
                    }
                } else if n == 4 && sl[0] == 0x1b && sl[1] == 91u8 && 48u8 <= sl[2] && sl[2] <= 57u8
                    && sl[3] == 126u8 {
                    let d = sl[2];
                    self.seq = SeqMode::Waiting;
                    if d == 53u8 {
                        return Some(Input::PageUp);
                    } else if d == 54u8 {
                        return Some(Input::PageDown);
                    }
                }
            }
            return None;
        }
        self.emit_char(ch)
    }

    pub fn getch(&mut self) -> (r: Option<Input>)
        requires
            old(self).wf(),
        ensures
            final(self).wf(),
            match old(self).seq_view() {
                SeqView::Drain(v) => {
                    let (e, out) = emit_spec(old(self).enc_view(), v[0]);
                    &&& final(self).seq_view() == (if v.len() == 1 {
                        SeqView::Waiting
                    } else {
                        SeqView::Drain(v.drop_first())
                    })
                    &&& final(self).enc_view() == e
                    &&& r == out
                },
                _ => exists|b: Option<u8>|
                    (final(self).seq_view(), final(self).enc_view(), r) == #[trigger] feed_spec(
                        old(self).seq_view(),
                        old(self).enc_view(),
                        b,
                    ),
            },
    {
        if let SeqMode::Drain(v) = self.seq {
            let mut v = v;
            let ret = bytes6_remove(&mut v, 0);
            if bytes6_len(&v) == 0 {
                self.seq = SeqMode::Waiting;
            } else {
                self.seq = SeqMode::Drain(v);
            }
            return self.emit_char(ret);
        }
        let b = self.src.get_char();
        self.feed(b)
    }
}

/// Feeding the bytes `bytes` one at a time: the state after them, and
/// what each byte gave.
pub open spec fn feed_all(seq: SeqView, enc: EncView, bytes: Seq<u8>) -> (
    SeqView,
    EncView,
    Seq<Option<Input>>,
)
    decreases bytes.len(),
{
    if bytes.len() == 0 {
        (seq, enc, Seq::empty())
    } else {
        let (s1, e1, o1) = feed_spec(seq, enc, Some(bytes[0]));
        let (s2, e2, outs) = feed_all(s1, e1, bytes.drop_first());
        (s2, e2, seq![o1] + outs)
    }
}

proof fn lemma_byte_ranges(s: u32)
    ensures
        has_width_1_encoding(s) ==> leading_byte_width_1(s) == s,
        has_width_2_encoding(s) ==> 0xc0 <= leading_byte_width_2(s) <= 0xdf,
        has_width_3_encoding(s) ==> 0xe0 <= leading_byte_width_3(s) <= 0xef,
        0x80 <= last_continuation_byte(s) <= 0xbf,
        0x80 <= second_last_continuation_byte(s) <= 0xbf,
{
    assert(0 <= s <= 0x7f ==> ((s & 0x7f) as u8) == s) by (bit_vector);
    assert(0x80 <= s <= 0x7ff ==> 0xc0 <= (0xc0 | ((s >> 6) & 0x1f) as u8) <= 0xdf)
        by (bit_vector);
    assert(0xe0 <= (0xe0 | ((s >> 12) & 0x0f) as u8) <= 0xef) by (bit_vector);
    assert(0x80 <= (0x80 | (s & 0x3f) as u8) <= 0xbf) by (bit_vector);
    assert(0x80 <= (0x80 | ((s >> 6) & 0x3f) as u8) <= 0xbf) by (bit_vector);
}

/// A character whose UTF-8 encoding has one to three bytes, other than
/// Escape, Delete and the line ends, comes out whole from a waiting reader
/// in its start state at its last byte, nothing comes out before, and the
/// reader ends where it started.
pub proof fn law_feed_utf8_char(c: char)
    requires
        encode_utf8(seq![c]).len() <= 3,
        c != '\x1b',
        c != '\x7f',
        c != '\r',
        c != '\n',
    ensures
        ({
            let b = encode_utf8(seq![c]);
            let (s, e, outs) = feed_all(SeqView::Waiting, enc_reset(), b);
            &&& s == SeqView::Waiting
            &&& e == enc_reset()
            &&& outs == Seq::new((b.len() - 1) as nat, |i: int| None::<Input>).push(
                Some(Input::Char(c)),
            )
        }),
{
    let b = encode_utf8(seq![c]);
    let sc = c as u32;
    assert(seq![c].drop_first() =~= Seq::<char>::empty());
    assert(encode_utf8(Seq::<char>::empty()) =~= Seq::<u8>::empty());
    assert(b == encode_scalar(seq![c][0] as u32) + encode_utf8(seq![c].drop_first()));
    assert(b =~= encode_scalar(sc));
    encode_utf8_valid_utf8(seq![c]);
    encode_utf8_decode_utf8(seq![c]);
    lemma_byte_ranges(sc);
    let w = SeqView::Waiting;
    let r = enc_reset();
    if has_width_1_encoding(sc) {
        let b0 = b[0];
        assert(b0 as u32 == sc);
        char_u32_cast(c, sc);
        assert(b0 as char == c);
        assert(b.drop_first() =~= Seq::<u8>::empty());
        assert(feed_spec(w, r, Some(b0)) == (w, r, Some(Input::Char(c))));
        assert(feed_all(w, r, b.drop_first()) == (w, r, Seq::<Option<Input>>::empty()));
        assert(seq![Some(Input::Char(c))] + Seq::<Option<Input>>::empty() =~= seq![
            Some(Input::Char(c)),
        ]);
        assert(feed_all(w, r, b) == (w, r, seq![Some(Input::Char(c))]));
        assert(Seq::new(0, |i: int| None::<Input>).push(Some(Input::Char(c))) =~= seq![
            Some(Input::Char(c)),
        ]);
    } else if has_width_2_encoding(sc) {
        let (b0, b1) = (b[0], b[1]);
        let e1 = EncView { expected: 1, bytes: seq![b0] };
        assert(feed_spec(w, r, Some(b0)) == (w, e1, None::<Input>));
        assert(seq![b0].push(b1) =~= b);
        assert(feed_spec(w, e1, Some(b1)) == (w, r, Some(Input::Char(c))));
        let rest = b.drop_first();
        assert(rest.drop_first() =~= Seq::<u8>::empty());
        assert(rest[0] == b1);
        assert(feed_all(w, r, rest.drop_first()) == (w, r, Seq::<Option<Input>>::empty()));
        assert(seq![Some(Input::Char(c))] + Seq::<Option<Input>>::empty() =~= seq![
            Some(Input::Char(c)),
        ]);
        assert(feed_all(w, e1, rest) == (w, r, seq![Some(Input::Char(c))]));
        assert(feed_all(w, r, b) == (w, r, seq![None::<Input>] + seq![Some(Input::Char(c))]));
        assert(Seq::new(1, |i: int| None::<Input>).push(Some(Input::Char(c))) =~= seq![None::<Input>]
            + seq![Some(Input::Char(c))]);
    } else {
        assert(has_width_3_encoding(sc)) by {
            assert(b.len() <= 3);
            vstd::utf8::char_is_scalar(c);
        }
        let (b0, b1, b2) = (b[0], b[1], b[2]);
        let e1 = EncView { expected: 2, bytes: seq![b0] };
        let e2 = EncView { expected: 2, bytes: seq![b0, b1] };
        assert(feed_spec(w, r, Some(b0)) == (w, e1, None::<Input>));
        assert(seq![b0].push(b1) =~= seq![b0, b1]);
        assert(feed_spec(w, e1, Some(b1)) == (w, e2, None::<Input>));
        assert(seq![b0, b1].push(b2) =~= b);
        assert(feed_spec(w, e2, Some(b2)) == (w, r, Some(Input::Char(c))));
        let r1 = b.drop_first();
        let r2 = r1.drop_first();
        assert(r1[0] == b1 && r2[0] == b2);
        assert(r2.drop_first() =~= Seq::<u8>::empty());
        assert(feed_all(w, r, r2.drop_first()) == (w, r, Seq::<Option<Input>>::empty()));
        assert(seq![Some(Input::Char(c))] + Seq::<Option<Input>>::empty() =~= seq![
            Some(Input::Char(c)),
        ]);
        assert(feed_all(w, e2, r2) == (w, r, seq![Some(Input::Char(c))]));
        assert(feed_all(w, e1, r1) == (w, r, seq![None::<Input>] + seq![Some(Input::Char(c))]));
        assert(feed_all(w, r, b) == (w, r, seq![None::<Input>] + (seq![None::<Input>] + seq![
            Some(Input::Char(c)),
        ])));
        assert(Seq::new(2, |i: int| None::<Input>).push(Some(Input::Char(c))) =~= seq![None::<Input>]
            + (seq![None::<Input>] + seq![Some(Input::Char(c))]));
    }
}

} // verus!
