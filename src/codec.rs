//! The wire codec: turns the bytes the server sends into responses.
//!
//! A response is a run of lines ended by a line feed. `KEY: VALUE` lines add a field to
//! the current frame; `binary: N` is followed by N raw bytes and a line feed, the frame's
//! payload; `list_OK` ends a frame of a command list; `OK` ends the response; and
//! `ACK [code@index] {command} message` ends it with the server's error.

use vstd::prelude::*;
use vstd::slice::{slice_subrange, slice_to_vec};
use vstd::string::{StrSliceExecFns, StringExecFns};
use vstd::utf8::{
    char_u32_cast, decode_utf8, encode_scalar, encode_utf8, encode_utf8_decode_utf8, has_width_1_encoding, encode_utf8_valid_utf8, is_ascii_chars,
    is_ascii_chars_encode_utf8, valid_utf8,
};
use crate::frame::{FieldsModel, Frame};
use crate::response::{MpdError, Response};
use crate::responses::integer_of;
use crate::values::{
    check_digits, digits_u64, digits_value, find_char, index_of_char, is_decimal, same_text,
};

verus! {

/// Relies on `String::from_utf8`: it accepts exactly the valid UTF-8 byte strings and
/// keeps the characters they encode.
#[verifier::external_body]
fn utf8_string(b: Vec<u8>) -> (r: Option<String>)
    ensures
        match r {
            Some(s) => valid_utf8(b@) && s@ == decode_utf8(b@),
            None => !valid_utf8(b@),
        },
{
    String::from_utf8(b).ok()
}

/// Position of the first line feed at or after `i`.
pub open spec fn newline_from(b: Seq<u8>, i: int) -> Option<int>
    decreases b.len() - i,
{
    if i < 0 || i >= b.len() {
        None
    } else if b[i] == 10 {
        Some(i)
    } else {
        newline_from(b, i + 1)
    }
}

/// Position of the first `": "` at or after `i`.
pub open spec fn separator_from(s: Seq<char>, i: int) -> Option<int>
    decreases s.len() - i,
{
    if i < 0 || i + 1 >= s.len() {
        None
    } else if s[i] == ':' && s[i + 1] == ' ' {
        Some(i)
    } else {
        separator_from(s, i + 1)
    }
}

/// A frame as the codec's laws speak of it: its fields and its payload.
pub type FrameModel = (FieldsModel, Option<Seq<u8>>);

/// A server error: code, command index, command name, message.
pub type ErrorModel = (nat, nat, Seq<char>, Seq<char>);

/// What has been read of a response so far.
pub struct Acc {
    /// The frames already ended.
    pub frames: Seq<FrameModel>,
    /// The fields of the current frame.
    pub fields: FieldsModel,
    /// The payload of the current frame.
    pub binary: Option<Seq<u8>>,
    /// Whether a `list_OK` was read.
    pub listed: bool,
}

/// Nothing read yet.
pub open spec fn empty_acc() -> Acc {
    Acc { frames: Seq::empty(), fields: Seq::empty(), binary: None, listed: false }
}

/// The result of reading a response at the start of a buffer.
pub enum Outcome {
    /// More bytes are needed.
    Incomplete,
    /// The bytes do not follow the grammar.
    Invalid,
    /// A response: its frames, its error, and the number of bytes it took.
    Complete(Seq<FrameModel>, Option<ErrorModel>, int),
}

/// Whether a line starts with `ACK `.
pub open spec fn is_ack_line(s: Seq<char>) -> bool {
    s.len() >= 4 && s[0] == 'A' && s[1] == 'C' && s[2] == 'K' && s[3] == ' '
}

/// The error an `ACK [code@index] {command} message` line carries, with a possibly
/// empty message.
pub open spec fn ack_of(s: Seq<char>) -> Option<ErrorModel> {
    let at = index_of_char(s, '@');
    let rb = index_of_char(s, ']');
    let lb = index_of_char(s, '{');
    let cb = index_of_char(s, '}');
    if s.len() >= 5 && is_ack_line(s) && s[4] == '[' && 5 <= at && at < rb && is_decimal(
        s.subrange(5, at),
    ) && is_decimal(s.subrange(at + 1, rb)) && digits_value(s.subrange(5, at)) <= u64::MAX
        && digits_value(s.subrange(at + 1, rb)) <= u64::MAX && lb == rb + 2 && rb + 1 < s.len()
        && s[rb + 1] == ' ' && lb < cb && cb < s.len() && (cb + 1 == s.len() || s[cb + 1] == ' ') {
        Some(
            (
                digits_value(s.subrange(5, at)),
                digits_value(s.subrange(at + 1, rb)),
                s.subrange(lb + 1, cb),
                if cb + 1 == s.len() {
                    Seq::empty()
                } else {
                    s.skip(cb + 2)
                },
            ),
        )
    } else {
        None
    }
}

/// The frames of a response that `OK` ends: the current frame counts unless a `list_OK`
/// already ended the last frame and nothing followed it.
pub open spec fn finished_frames(acc: Acc) -> Seq<FrameModel> {
    if !acc.listed || acc.fields.len() > 0 || acc.binary is Some {
        acc.frames.push((acc.fields, acc.binary))
    } else {
        acc.frames
    }
}

/// Read the rest of a response from position `pos` of `b`, with `acc` read before it.
pub open spec fn parse_from(b: Seq<u8>, pos: int, acc: Acc) -> Outcome
    decreases b.len() - pos,
{
    match newline_from(b, pos) {
        None => Outcome::Incomplete,
        Some(e) => {
            if e < pos || e >= b.len() || !valid_utf8(b.subrange(pos, e)) {
                Outcome::Invalid
            } else {
                let s = decode_utf8(b.subrange(pos, e));
                if s == "OK"@ {
                    Outcome::Complete(finished_frames(acc), None, e + 1)
                } else if s == "list_OK"@ {
                    parse_from(
                        b,
                        e + 1,
                        Acc {
                            frames: acc.frames.push((acc.fields, acc.binary)),
                            fields: Seq::empty(),
                            binary: None,
                            listed: true,
                        },
                    )
                } else if is_ack_line(s) {
                    match ack_of(s) {
                        Some(err) => Outcome::Complete(acc.frames, Some(err), e + 1),
                        None => Outcome::Invalid,
                    }
                } else {
                    match separator_from(s, 0) {
                        None => Outcome::Invalid,
                        Some(j) => {
                            let key = s.take(j);
                            let value = s.skip(j + 2);
                            if key == "binary"@ {
                                match integer_of(value, usize::MAX as nat) {
                                    None => Outcome::Invalid,
                                    Some(n) => if acc.binary is Some {
                                        Outcome::Invalid
                                    } else if e + 1 + n + 1 > b.len() {
                                        Outcome::Incomplete
                                    } else if b[e + 1 + n] != 10 {
                                        Outcome::Invalid
                                    } else {
                                        parse_from(
                                            b,
                                            e + 2 + n,
                                            Acc {
                                                binary: Some(b.subrange(e + 1, e + 1 + n)),
                                                ..acc
                                            },
                                        )
                                    },
                                }
                            } else {
                                parse_from(
                                    b,
                                    e + 1,
                                    Acc { fields: acc.fields.push((key, value)), ..acc },
                                )
                            }
                        },
                    }
                }
            }
        },
    }
}

/// One field as the server writes it: `KEY: VALUE` and a line feed.
pub open spec fn field_line(k: Seq<char>, v: Seq<char>) -> Seq<char> {
    k + seq![':', ' '] + v + seq!['\n']
}

/// The lines of the fields, in order.
pub open spec fn fields_text(f: FieldsModel) -> Seq<char>
    decreases f.len(),
{
    if f.len() == 0 {
        Seq::empty()
    } else {
        fields_text(f.drop_last()) + field_line(f.last().0, f.last().1)
    }
}

/// A response of one frame, as the server writes it: the field lines, then `OK`.
pub open spec fn frame_text(f: FieldsModel) -> Seq<char> {
    fields_text(f) + seq!['O', 'K', '\n']
}

/// A key that stands as written in a field line: without `:`, space or line feed, and
/// not the key of a binary payload.
pub open spec fn plain_key(k: Seq<char>) -> bool {
    &&& k != "binary"@
    &&& forall|i: int| 0 <= i < k.len() ==> #[trigger] k[i] != ':' && k[i] != ' ' && k[i] != '\n'
}

/// A value that stands as written in a field line: without a line feed.
pub open spec fn plain_value(v: Seq<char>) -> bool {
    forall|i: int| 0 <= i < v.len() ==> #[trigger] v[i] != '\n'
}

pub open spec fn plain_fields(f: FieldsModel) -> bool {
    forall|i: int| 0 <= i < f.len() ==> plain_key(#[trigger] f[i].0) && plain_value(f[i].1)
}

proof fn lemma_newline_at(b: Seq<u8>, p: int, e: int)
    requires
        0 <= p <= e < b.len(),
        b[e] == 10,
        forall|i: int| p <= i < e ==> b[i] != 10,
    ensures
        newline_from(b, p) == Some(e),
    decreases e - p,
{
    if p < e {
        lemma_newline_at(b, p + 1, e);
    }
}

proof fn lemma_separator_at(s: Seq<char>, k: int, i: int)
    requires
        0 <= i <= k,
        k + 1 < s.len(),
        s[k] == ':',
        s[k + 1] == ' ',
        forall|j: int| i <= j < k ==> s[j] != ':',
    ensures
        separator_from(s, i) == Some(k),
    decreases k - i,
{
    if i < k {
        lemma_separator_at(s, k, i + 1);
    }
}

proof fn lemma_fields_text_prefix(f: FieldsModel, i: int)
    requires
        0 <= i <= f.len(),
    ensures
        fields_text(f.take(i)).len() <= fields_text(f).len(),
        fields_text(f).take(fields_text(f.take(i)).len() as int) == fields_text(f.take(i)),
    decreases f.len() - i,
{
    if i < f.len() {
        lemma_fields_text_prefix(f, i + 1);
        let g = f.take(i + 1);
        assert(g.drop_last() =~= f.take(i));
        let a = fields_text(f.take(i));
        let c = fields_text(g);
        assert(c == a + field_line(g.last().0, g.last().1));
        assert(fields_text(f).take(a.len() as int) =~= c.take(a.len() as int));
        assert(c.take(a.len() as int) =~= a);
    } else {
        assert(f.take(i) =~= f);
        assert(fields_text(f).take(fields_text(f).len() as int) =~= fields_text(f));
    }
}

proof fn lemma_encode_append(a: Seq<char>, b: Seq<char>)
    ensures
        encode_utf8(a + b) == encode_utf8(a) + encode_utf8(b),
    decreases a.len(),
{
    if a.len() == 0 {
        assert(a + b =~= b);
        assert(encode_utf8(a) + encode_utf8(b) =~= encode_utf8(b));
    } else {
        assert((a + b)[0] == a[0]);
        assert((a + b).drop_first() =~= a.drop_first() + b);
        lemma_encode_append(a.drop_first(), b);
        assert(encode_utf8(a + b) =~= encode_utf8(a) + encode_utf8(b));
    }
}

proof fn lemma_scalar_not_newline(c: char)
    requires
        c != '\n',
    ensures
        forall|i: int| 0 <= i < encode_scalar(c as u32).len() ==> #[trigger] encode_scalar(
            c as u32,
        )[i] != 10,
{
    let v = c as u32;
    char_u32_cast(c, v);
    assert(v != 10);
    if has_width_1_encoding(v) {
        assert((v & 0x7F) as u8 != 10) by (bit_vector)
            requires
                v <= 0x7F,
                v != 10,
        ;
    } else {
        let a = ((v >> 6) & 0x1F) as u8;
        let b2 = ((v >> 12) & 0x0F) as u8;
        let b3 = ((v >> 18) & 0x7) as u8;
        let c1 = (v & 0x3F) as u8;
        let c2 = ((v >> 6) & 0x3F) as u8;
        let c3 = ((v >> 12) & 0x3F) as u8;
        assert(0xC0 | a != 10 && 0xE0 | b2 != 10 && 0xF0 | b3 != 10 && 0x80 | c1 != 10 && 0x80
            | c2 != 10 && 0x80 | c3 != 10) by (bit_vector);
    }
}

proof fn lemma_encode_no_newline(t: Seq<char>)
    requires
        forall|i: int| 0 <= i < t.len() ==> #[trigger] t[i] != '\n',
    ensures
        forall|i: int| 0 <= i < encode_utf8(t).len() ==> #[trigger] encode_utf8(t)[i] != 10,
    decreases t.len(),
{
    if t.len() > 0 {
        let r = t.drop_first();
        assert forall|i: int| 0 <= i < r.len() implies #[trigger] r[i] != '\n' by {
            assert(r[i] == t[i + 1]);
        }
        lemma_encode_no_newline(r);
        lemma_scalar_not_newline(t[0]);
        let h = encode_scalar(t[0] as u32);
        assert(encode_utf8(t) == h + encode_utf8(r));
        assert forall|i: int| 0 <= i < encode_utf8(t).len() implies #[trigger] encode_utf8(t)[i]
            != 10 by {
            if i < h.len() {
                assert(encode_utf8(t)[i] == h[i]);
            } else {
                assert(encode_utf8(t)[i] == encode_utf8(r)[i - h.len()]);
            }
        }
    }
}

proof fn lemma_encode_newline()
    ensures
        encode_utf8(seq!['\n']) == seq![10u8],
{
    broadcast use is_ascii_chars_encode_utf8;

    assert(is_ascii_chars(seq!['\n']));
    assert(encode_utf8(seq!['\n']) =~= seq![10u8]);
}

/// One field line, read at byte `p`, adds its field to the current frame.
#[verifier::rlimit(40)]
proof fn lemma_read_line(b: Seq<u8>, p: int, k: Seq<char>, v: Seq<char>, acc: Acc)
    requires
        0 <= p,
        p + encode_utf8(field_line(k, v)).len() <= b.len(),
        b.subrange(p, p + encode_utf8(field_line(k, v)).len()) == encode_utf8(field_line(k, v)),
        plain_key(k),
        plain_value(v),
    ensures
        parse_from(b, p, acc) == parse_from(
            b,
            p + encode_utf8(field_line(k, v)).len(),
            Acc { fields: acc.fields.push((k, v)), ..acc },
        ),
{
    let line = field_line(k, v);
    let s = k + seq![':', ' '] + v;
    assert(line =~= s + seq!['\n']);
    lemma_encode_append(s, seq!['\n']);
    lemma_encode_newline();
    let es = encode_utf8(s);
    let q = p + encode_utf8(line).len();
    let e = q - 1;
    assert(forall|i: int| 0 <= i < s.len() ==> #[trigger] s[i] != '\n') by {
        assert forall|i: int| 0 <= i < s.len() implies #[trigger] s[i] != '\n' by {
            if i < k.len() {
                assert(s[i] == k[i]);
            } else if i >= k.len() + 2 {
                assert(s[i] == v[i - k.len() - 2]);
            }
        }
    }
    lemma_encode_no_newline(s);
    assert forall|x: int| p <= x < e implies b[x] != 10 by {
        assert(b[x] == b.subrange(p, q)[x - p]);
        assert(b.subrange(p, q)[x - p] == es[x - p]);
    }
    assert(b[e] == b.subrange(p, q)[e - p]);
    lemma_newline_at(b, p, e);
    assert(b.subrange(p, e) =~= es);
    broadcast use encode_utf8_decode_utf8, encode_utf8_valid_utf8;

    assert(decode_utf8(b.subrange(p, e)) == s);
    reveal_strlit("OK");
    reveal_strlit("list_OK");
    reveal_strlit("binary");
    assert(s[k.len() as int] == ':');
    assert(s != "OK"@) by {
        if s == "OK"@ {
            if k.len() == 0 {
                assert(s[0] == ':');
            } else {
                assert(s[k.len() as int] == ':');
            }
        }
    }
    assert(s != "list_OK"@) by {
        if s == "list_OK"@ {
            assert(s[k.len() as int] == ':');
        }
    }
    assert(!is_ack_line(s)) by {
        if is_ack_line(s) {
            if k.len() >= 4 {
                assert(s[3] == k[3]);
            } else {
                assert(s[k.len() as int] == ':');
            }
        }
    }
    lemma_separator_at(s, k.len() as int, 0);
    assert(s.take(k.len() as int) =~= k);
    assert(s.skip(k.len() as int + 2) =~= v);
}

/// Reading the field lines one by one: after `i` of them the fields read are the first
/// `i`, in order.
proof fn lemma_read_fields(f: FieldsModel, i: int)
    requires
        0 <= i <= f.len(),
        plain_fields(f),
    ensures
        parse_from(encode_utf8(frame_text(f)), 0, empty_acc()) == parse_from(
            encode_utf8(frame_text(f)),
            encode_utf8(fields_text(f.take(i))).len() as int,
            Acc { frames: Seq::empty(), fields: f.take(i), binary: None, listed: false },
        ),
    decreases i,
{
    let t = frame_text(f);
    let b = encode_utf8(t);
    if i == 0 {
        assert(f.take(0) =~= FieldsModel::empty());
        assert(fields_text(f.take(0)) =~= Seq::<char>::empty());
    } else {
        lemma_read_fields(f, i - 1);
        let g = f.take(i);
        assert(g.drop_last() =~= f.take(i - 1));
        let k = f[i - 1].0;
        let v = f[i - 1].1;
        assert(g.last() == (k, v));
        let pre = fields_text(f.take(i - 1));
        let line = field_line(k, v);
        assert(fields_text(g) == pre + line);
        lemma_fields_text_prefix(f, i);
        let ft = fields_text(f);
        let rest = ft.skip(fields_text(g).len() as int) + seq!['O', 'K', '\n'];
        assert(t =~= pre + line + rest) by {
            assert(ft =~= ft.take(fields_text(g).len() as int) + ft.skip(fields_text(g).len() as int));
        }
        lemma_encode_append(pre + line, rest);
        lemma_encode_append(pre, line);
        let p = encode_utf8(pre).len() as int;
        let l = encode_utf8(line).len() as int;
        assert(b =~= encode_utf8(pre) + encode_utf8(line) + encode_utf8(rest));
        assert(b.subrange(p, p + l) =~= encode_utf8(line));
        assert(plain_key(k) && plain_value(v));
        lemma_read_line(
            b,
            p,
            k,
            v,
            Acc { frames: Seq::empty(), fields: f.take(i - 1), binary: None, listed: false },
        );
        assert(f.take(i - 1).push((k, v)) =~= g);
    }
}

/// Decoding what the server writes for one frame gives back that frame: the same
/// fields, in the same order, repeated keys included, and the whole text consumed.
pub proof fn lemma_frame_round_trip(f: FieldsModel)
    requires
        plain_fields(f),
    ensures
        parse_from(encode_utf8(frame_text(f)), 0, empty_acc()) == Outcome::Complete(
            seq![(f, None::<Seq<u8>>)],
            None,
            encode_utf8(frame_text(f)).len() as int,
        ),
{
    let t = frame_text(f);
    let b = encode_utf8(t);
    let n = f.len() as int;
    lemma_read_fields(f, n);
    assert(f.take(n) =~= f);
    let ok = seq!['O', 'K', '\n'];
    lemma_encode_append(fields_text(f), ok);
    broadcast use is_ascii_chars_encode_utf8, encode_utf8_decode_utf8, encode_utf8_valid_utf8;

    assert(is_ascii_chars(ok));
    assert(encode_utf8(ok) =~= seq![79u8, 75u8, 10u8]);
    let p = encode_utf8(fields_text(f)).len() as int;
    assert(b[p] == 79 && b[p + 1] == 75 && b[p + 2] == 10);
    lemma_newline_at(b, p, p + 2);
    let okc = seq!['O', 'K'];
    assert(is_ascii_chars(okc));
    assert(encode_utf8(okc) =~= seq![79u8, 75u8]);
    assert(b.subrange(p, p + 2) =~= encode_utf8(okc));
    reveal_strlit("OK");
    assert(okc =~= "OK"@);
    assert(decode_utf8(b.subrange(p, p + 2)) == okc);
    let acc = Acc { frames: Seq::empty(), fields: f, binary: None, listed: false };
    assert(finished_frames(acc) =~= seq![(f, None::<Seq<u8>>)]);
}
/// The result of reading a response.
#[derive(Debug)]
pub enum Decoded {
    /// More bytes are needed; nothing was consumed.
    Incomplete,
    /// The bytes do not follow the grammar.
    Invalid,
    /// A response and the number of bytes it took.
    Complete(Response, usize),
}

pub open spec fn frame_model(f: Frame) -> FrameModel {
    (f@, f.binary_view())
}

pub open spec fn error_model(e: MpdError) -> ErrorModel {
    (e.code as nat, e.command_index as nat, e.current_command@, e.message@)
}

/// What a decoded response is in terms of the grammar.
pub open spec fn response_model(r: Response) -> (Seq<FrameModel>, Option<ErrorModel>) {
    (
        r.frames@.map_values(|f: Frame| frame_model(f)),
        match r.error {
            Some(e) => Some(error_model(e)),
            None => None,
        },
    )
}

/// Position of the first line feed at or after `from`.
fn find_newline(b: &[u8], from: usize) -> (r: Option<usize>)
    requires
        from <= b@.len(),
    ensures
        r matches Some(e) ==> newline_from(b@, from as int) == Some(e as int) && from <= e
            < b@.len(),
        r is None ==> newline_from(b@, from as int) is None,
{
    let mut i = from;
    while i < b.len()
        invariant
            from <= i <= b@.len(),
            newline_from(b@, from as int) == newline_from(b@, i as int),
        decreases b@.len() - i,
    {
        if b[i] == 10 {
            return Some(i);
        }
        i = i + 1;
    }
    None
}

/// Position of the first `": "` in `s`.
fn find_separator(s: &str) -> (r: Option<usize>)
    ensures
        r matches Some(j) ==> separator_from(s@, 0) == Some(j as int) && j + 1 < s@.len(),
        r is None ==> separator_from(s@, 0) is None,
{
    let n = s.unicode_len();
    let mut i: usize = 0;
    while n > 0 && i < n - 1
        invariant
            n == s@.len(),
            separator_from(s@, 0) == separator_from(s@, i as int),
        decreases n - i,
    {
        if s.get_char(i) == ':' && s.get_char(i + 1) == ' ' {
            return Some(i);
        }
        i = i + 1;
    }
    None
}

/// Read the error of an `ACK` line.
fn parse_ack(s: &str) -> (r: Option<MpdError>)
    ensures
        match r {
            Some(e) => ack_of(s@) == Some(error_model(e)),
            None => ack_of(s@) is None,
        },
{
    let n = s.unicode_len();
    if n < 5 || s.get_char(0) != 'A' || s.get_char(1) != 'C' || s.get_char(2) != 'K'
        || s.get_char(3) != ' ' || s.get_char(4) != '[' {
        return None;
    }
    let at = find_char(s, '@');
    let rb = find_char(s, ']');
    let lb = find_char(s, '{');
    let cb = find_char(s, '}');
    if !(5 < at && at < rb && at < rb - 1 && rb < n - 1 && lb == rb + 2 && lb < cb && cb < n) {
        return None;
    }
    if s.get_char(rb + 1) != ' ' {
        return None;
    }
    if cb + 1 != n && s.get_char(cb + 1) != ' ' {
        return None;
    }
    if !check_digits(s, 5, at) || !check_digits(s, at + 1, rb) {
        return None;
    }
    let code = match digits_u64(s, 5, at) {
        Some(c) => c,
        None => return None,
    };
    let index = match digits_u64(s, at + 1, rb) {
        Some(c) => c,
        None => return None,
    };
    let command = String::from_str(s.substring_char(lb + 1, cb));
    let message = if cb + 1 == n {
        String::new()
    } else {
        String::from_str(s.substring_char(cb + 2, n))
    };
    assert(cb + 1 != n ==> message@ =~= s@.skip(cb + 2));
    Some(MpdError { code, command_index: index, current_command: command, message })
}

/// The result of reading the server's greeting.
#[derive(Debug)]
pub enum Greeting {
    /// More bytes are needed.
    Incomplete,
    /// The first line is not `OK MPD <version>`.
    Invalid,
    /// The protocol version the server announced, and the number of bytes taken.
    Complete(String, usize),
}

/// Whether a line starts with `OK MPD `.
pub open spec fn is_greeting_line(s: Seq<char>) -> bool {
    s.len() >= 7 && s[0] == 'O' && s[1] == 'K' && s[2] == ' ' && s[3] == 'M' && s[4] == 'P'
        && s[5] == 'D' && s[6] == ' '
}

/// Read the greeting `OK MPD <version>` that opens a connection.
pub fn decode_greeting(b: &[u8]) -> (r: Greeting)
    ensures
        match newline_from(b@, 0) {
            None => r is Incomplete,
            Some(e) => match r {
                Greeting::Complete(v, n) => {
                    &&& n == e + 1
                    &&& valid_utf8(b@.subrange(0, e))
                    &&& is_greeting_line(decode_utf8(b@.subrange(0, e)))
                    &&& v@ == decode_utf8(b@.subrange(0, e)).skip(7)
                },
                Greeting::Invalid => !valid_utf8(b@.subrange(0, e)) || !is_greeting_line(
                    decode_utf8(b@.subrange(0, e)),
                ),
                Greeting::Incomplete => false,
            },
        },
{
    let blen = b.len();
    let e = match find_newline(b, 0) {
        Some(e) => e,
        None => return Greeting::Incomplete,
    };
    let line = slice_to_vec(slice_subrange(b, 0, e));
    assert(line@ =~= b@.subrange(0, e as int));
    let s = match utf8_string(line) {
        Some(s) => s,
        None => return Greeting::Invalid,
    };
    let t = s.as_str();
    let n = t.unicode_len();
    if n < 7 || t.get_char(0) != 'O' || t.get_char(1) != 'K' || t.get_char(2) != ' '
        || t.get_char(3) != 'M' || t.get_char(4) != 'P' || t.get_char(5) != 'D'
        || t.get_char(6) != ' ' {
        return Greeting::Invalid;
    }
    let version = String::from_str(t.substring_char(7, n));
    assert(version@ =~= s@.skip(7));
    Greeting::Complete(version, e + 1)
}

/// Read one response from the start of `b`.
pub fn decode(b: &[u8]) -> (r: Decoded)
    ensures
        match r {
            Decoded::Incomplete => parse_from(b@, 0, empty_acc()) is Incomplete,
            Decoded::Invalid => parse_from(b@, 0, empty_acc()) is Invalid,
            Decoded::Complete(res, n) => parse_from(b@, 0, empty_acc()) == Outcome::Complete(
                response_model(res).0,
                response_model(res).1,
                n as int,
            ) && res.wf() && n <= b@.len(),
        },
{
    let mut frames: Vec<Frame> = Vec::new();
    let mut current = Frame::new();
    let mut listed = false;
    let mut pos: usize = 0;
    let blen = b.len();
    assert(frames@.map_values(|f: Frame| frame_model(f)) =~= Seq::<FrameModel>::empty());
    loop
        invariant
            blen == b@.len(),
            pos <= b@.len(),
            parse_from(b@, 0, empty_acc()) == parse_from(
                b@,
                pos as int,
                Acc {
                    frames: frames@.map_values(|f: Frame| frame_model(f)),
                    fields: current@,
                    binary: current.binary_view(),
                    listed,
                },
            ),
            listed ==> frames@.len() > 0,
        decreases b@.len() - pos,
    {
        let ghost acc = Acc {
            frames: frames@.map_values(|f: Frame| frame_model(f)),
            fields: current@,
            binary: current.binary_view(),
            listed,
        };
        let e = match find_newline(b, pos) {
            Some(e) => e,
            None => return Decoded::Incomplete,
        };
        let line = slice_to_vec(slice_subrange(b, pos, e));
        assert(line@ =~= b@.subrange(pos as int, e as int));
        let s = match utf8_string(line) {
            Some(s) => s,
            None => return Decoded::Invalid,
        };
        let t = s.as_str();
        proof {
            reveal_strlit("OK");
            reveal_strlit("list_OK");
            reveal_strlit("binary");
        }
        if same_text(t, "OK") {
            if !listed || !current.is_empty() {
                frames.push(current);
            }
            let res = Response { frames, error: None };
            assert(response_model(res).0 =~= finished_frames(acc));
            return Decoded::Complete(res, e + 1);
        } else if same_text(t, "list_OK") {
            frames.push(current);
            current = Frame::new();
            listed = true;
            assert(frames@.map_values(|f: Frame| frame_model(f)) =~= acc.frames.push(
                (acc.fields, acc.binary),
            ));
            assert(current@ =~= FieldsModel::empty());
            pos = e + 1;
        } else if t.unicode_len() >= 4 && t.get_char(0) == 'A' && t.get_char(1) == 'C'
            && t.get_char(2) == 'K' && t.get_char(3) == ' ' {
            match parse_ack(t) {
                Some(err) => {
                    let res = Response { frames, error: Some(err) };
                    assert(response_model(res).0 =~= acc.frames);
                    return Decoded::Complete(res, e + 1);
                },
                None => return Decoded::Invalid,
            }
        } else {
            let j = match find_separator(t) {
                Some(j) => j,
                None => return Decoded::Invalid,
            };
            let n = t.unicode_len();
            let key = t.substring_char(0, j);
            let value = String::from_str(t.substring_char(j + 2, n));
            assert(key@ =~= s@.take(j as int));
            assert(value@ =~= s@.skip(j as int + 2));
            if same_text(key, "binary") {
                let len = match crate::values::parse_integer(value, "binary", usize::MAX as u64) {
                    Ok(x) => x as usize,
                    Err(_) => return Decoded::Invalid,
                };
                if current.has_binary() {
                    return Decoded::Invalid;
                }
                if len >= blen || e + 1 >= blen - len {
                    return Decoded::Incomplete;
                }
                if b[e + 1 + len] != 10 {
                    return Decoded::Invalid;
                }
                let payload = slice_to_vec(slice_subrange(b, e + 1, e + 1 + len));
                assert(payload@ =~= b@.subrange(e + 1, e + 1 + len));
                current.set_binary(payload);
                pos = e + 2 + len;
            } else {
                current.push_field(String::from_str(key), value);
                pos = e + 1;
            }
        }
    }
}

} // verus!
