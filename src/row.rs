//! Fixed-width binary encoding of a row.
use vstd::prelude::*;
use vstd::bytes::{
    lemma_auto_spec_u32_to_from_le_bytes, spec_u32_from_le_bytes, spec_u32_to_le_bytes,
    u32_from_le_bytes, u32_to_le_bytes,
};
use vstd::utf8::{decode_utf8, encode_utf8, valid_utf8};
use crate::layout::{EMAIL_OFFSET, EMAIL_SIZE, ID_SIZE, ROW_SIZE, USERNAME_OFFSET, USERNAME_SIZE};

verus! {

broadcast use vstd::utf8::group_utf8_lib;

/// A record: an integer key and two bounded text fields.
#[derive(Debug, Clone, PartialEq)]
pub struct Row {
    pub id: u32,
    pub username: String,
    pub email: String,
}

/// What a row holds, as mathematical values.
pub struct RowView {
    pub id: u32,
    pub username: Seq<char>,
    pub email: Seq<char>,
}

impl View for Row {
    type V = RowView;

    open spec fn view(&self) -> RowView {
        RowView { id: self.id, username: self.username@, email: self.email@ }
    }
}

/// The text, cut to `width` bytes and padded with zero bytes up to `width`.
pub open spec fn text_field(text: Seq<u8>, width: nat) -> Seq<u8> {
    Seq::new(width, |i: int| if i < text.len() { text[i] } else { 0u8 })
}

/// The encoded form of a row: the key in four little-endian bytes, then the
/// UTF-8 bytes of the username and of the email, each in its zero-padded field.
pub open spec fn encode_row(r: RowView) -> Seq<u8> {
    spec_u32_to_le_bytes(r.id) + text_field(encode_utf8(r.username), USERNAME_SIZE as nat)
        + text_field(encode_utf8(r.email), EMAIL_SIZE as nat)
}

/// Number of bytes before the first zero byte of a field (all of it if none).
pub open spec fn text_len(field: Seq<u8>) -> nat
    decreases field.len(),
{
    if field.len() == 0 || field[0] == 0 {
        0
    } else {
        1 + text_len(field.drop_first())
    }
}

/// The bytes of a field up to its first zero byte.
pub open spec fn field_text(field: Seq<u8>) -> Seq<u8> {
    field.take(text_len(field) as int)
}

/// What lossy UTF-8 decoding gives for bytes that are not valid UTF-8.
pub uninterp spec fn lossy_utf8(bytes: Seq<u8>) -> Seq<char>;

/// Bytes read as text: valid UTF-8 is decoded as it is; otherwise invalid
/// sequences are replaced by a placeholder character.
pub open spec fn decoded_text(bytes: Seq<u8>) -> Seq<char> {
    if valid_utf8(bytes) {
        decode_utf8(bytes)
    } else {
        lossy_utf8(bytes)
    }
}

/// The row that an encoded form reads back as.
pub open spec fn decode_row(b: Seq<u8>) -> RowView {
    RowView {
        id: spec_u32_from_le_bytes(b.subrange(0, ID_SIZE as int)),
        username: decoded_text(field_text(b.subrange(USERNAME_OFFSET as int, EMAIL_OFFSET as int))),
        email: decoded_text(field_text(b.subrange(EMAIL_OFFSET as int, ROW_SIZE as int))),
    }
}

/// Text that fits its field and holds no zero byte.
pub open spec fn fits_field(text: Seq<char>, width: nat) -> bool {
    &&& encode_utf8(text).len() <= width
    &&& !encode_utf8(text).contains(0u8)
}

/// A row whose text fields come back unchanged from their encoding.
pub open spec fn storable(r: RowView) -> bool {
    &&& fits_field(r.username, USERNAME_SIZE as nat)
    &&& fits_field(r.email, EMAIL_SIZE as nat)
}

/// `s` with the bytes from `at` on replaced by `b`.
pub open spec fn overwrite(s: Seq<u8>, at: int, b: Seq<u8>) -> Seq<u8> {
    s.subrange(0, at) + b + s.subrange(at + b.len(), s.len() as int)
}

/// Relies on `String::from_utf8_lossy`: valid UTF-8 is decoded unchanged, and
/// the result depends on the bytes alone.
#[verifier::external_body]
fn text_from_utf8_lossy(bytes: &[u8]) -> (r: String)
    ensures
        valid_utf8(bytes@) ==> r@ == decode_utf8(bytes@),
        !valid_utf8(bytes@) ==> r@ == lossy_utf8(bytes@),
{
    String::from_utf8_lossy(bytes).into_owned()
}

proof fn lemma_text_len(f: Seq<u8>, n: int)
    requires
        0 <= n <= f.len(),
        forall|k: int| 0 <= k < n ==> f[k] != 0,
        n == f.len() || f[n] == 0,
    ensures
        text_len(f) == n,
    decreases n,
{
    if n > 0 {
        let g = f.drop_first();
        assert forall|k: int| 0 <= k < n - 1 implies g[k] != 0 by {
            assert(g[k] == f[k + 1]);
        }
        if n - 1 < g.len() {
            assert(g[n - 1] == f[n]);
        }
        lemma_text_len(g, n - 1);
    }
}

proof fn lemma_field_text_of_fitting(text: Seq<u8>, width: nat)
    requires
        text.len() <= width,
        !text.contains(0u8),
    ensures
        field_text(text_field(text, width)) == text,
{
    let f = text_field(text, width);
    assert forall|k: int| 0 <= k < text.len() implies f[k] != 0 by {
        if f[k] == 0 {
            assert(text[k] == 0u8);
            assert(text.contains(0u8));
        }
    }
    lemma_text_len(f, text.len() as int);
    assert(field_text(f) =~= text);
}

/// Encoding a storable row and decoding it gives the row back.
pub proof fn lemma_row_round_trip(r: RowView)
    requires
        storable(r),
    ensures
        decode_row(encode_row(r)) == r,
        encode_row(r).len() == ROW_SIZE,
{
    lemma_auto_spec_u32_to_from_le_bytes();
    let e = encode_row(r);
    let ub = encode_utf8(r.username);
    let eb = encode_utf8(r.email);
    let id_bytes = spec_u32_to_le_bytes(r.id);
    let uf = text_field(ub, USERNAME_SIZE as nat);
    let ef = text_field(eb, EMAIL_SIZE as nat);
    assert(e.subrange(0, ID_SIZE as int) =~= id_bytes);
    assert(e.subrange(USERNAME_OFFSET as int, EMAIL_OFFSET as int) =~= uf);
    assert(e.subrange(EMAIL_OFFSET as int, ROW_SIZE as int) =~= ef);
    lemma_field_text_of_fitting(ub, USERNAME_SIZE as nat);
    lemma_field_text_of_fitting(eb, EMAIL_SIZE as nat);
}

/// Writes `text_field(src, width)` into `dest` at `at`.
pub(crate) fn write_field(dest: &mut [u8], at: usize, src: &[u8], width: usize)
    requires
        at + width <= old(dest)@.len(),
    ensures
        final(dest)@ == overwrite(old(dest)@, at as int, text_field(src@, width as nat)),
{
    let ghost field = text_field(src@, width as nat);
    let len = dest.len();
    let mut i: usize = 0;
    while i < width
        invariant
            i <= width,
            at + width <= len,
            len == dest@.len(),
            dest@.len() == old(dest)@.len(),
            field == text_field(src@, width as nat),
            forall|k: int| 0 <= k < i ==> dest@[at + k] == field[k],
            forall|k: int|
                0 <= k < dest@.len() && !(at <= k < at + i) ==> dest@[k] == old(dest)@[k],
        decreases width - i,
    {
        let b: u8 = if i < src.len() {
            src[i]
        } else {
            0
        };
        dest[at + i] = b;
        i += 1;
    }
    assert(dest@ =~= overwrite(old(dest)@, at as int, field));
}

/// Writes the encoded form of `row` into `dest` at `at`.
pub fn write_row_at(row: &Row, dest: &mut [u8], at: usize)
    requires
        at + ROW_SIZE <= old(dest)@.len(),
    ensures
        final(dest)@ == overwrite(old(dest)@, at as int, encode_row(row@)),
{
    proof {
        lemma_auto_spec_u32_to_from_le_bytes();
    }
    let id_bytes = u32_to_le_bytes(row.id);
    let name = row.username.as_str().as_bytes();
    let mail = row.email.as_str().as_bytes();
    let len = dest.len();
    assert(at + ROW_SIZE <= len);
    let ghost d0 = dest@;
    write_field(dest, at, id_bytes.as_slice(), ID_SIZE);
    write_field(dest, at + USERNAME_OFFSET, name, USERNAME_SIZE);
    write_field(dest, at + EMAIL_OFFSET, mail, EMAIL_SIZE);
    proof {
        let a = text_field(id_bytes@, ID_SIZE as nat);
        assert(a =~= spec_u32_to_le_bytes(row.id));
        let b = text_field(encode_utf8(row.username@), USERNAME_SIZE as nat);
        let c = text_field(encode_utf8(row.email@), EMAIL_SIZE as nat);
        assert(dest@ =~= overwrite(d0, at as int, a + b + c));
    }
}

/// Writes the encoded form of `row` into the first `ROW_SIZE` bytes of
/// `destination`.
pub fn serialize_row(row: &Row, destination: &mut [u8])
    requires
        old(destination)@.len() >= ROW_SIZE,
    ensures
        final(destination)@ == overwrite(old(destination)@, 0, encode_row(row@)),
{
    write_row_at(row, destination, 0);
}

/// Length of the text in the field of `width` bytes at `start`.
fn field_text_len(src: &[u8], start: usize, width: usize) -> (n: usize)
    requires
        start + width <= src@.len(),
    ensures
        n == text_len(src@.subrange(start as int, start + width)),
        n <= width,
{
    let ghost f = src@.subrange(start as int, start + width);
    let len = src.len();
    assert(start + width <= len);
    let mut i: usize = 0;
    while i < width && src[start + i] != 0
        invariant
            i <= width,
            start + width <= len,
            len == src@.len(),
            f == src@.subrange(start as int, start + width),
            forall|k: int| 0 <= k < i ==> f[k] != 0,
        decreases width - i,
    {
        i += 1;
    }
    proof {
        lemma_text_len(f, i as int);
    }
    i
}

/// Reads the text of the field of `width` bytes at `start`.
fn read_text_field(src: &[u8], start: usize, width: usize) -> (s: String)
    requires
        start + width <= src@.len(),
    ensures
        s@ == decoded_text(field_text(src@.subrange(start as int, start + width))),
{
    let n = field_text_len(src, start, width);
    let len = src.len();
    assert(start + width <= len);
    let mut text: Vec<u8> = Vec::new();
    let mut i: usize = 0;
    while i < n
        invariant
            i <= n <= width,
            start + width <= len,
            len == src@.len(),
            text@ == src@.subrange(start as int, start + i),
        decreases n - i,
    {
        text.push(src[start + i]);
        i += 1;
        assert(text@ =~= src@.subrange(start as int, start + i));
    }
    assert(text@ =~= field_text(src@.subrange(start as int, start + width)));
    text_from_utf8_lossy(text.as_slice())
}

/// Reads a row back from the first `ROW_SIZE` bytes of `source`. Never fails:
/// bytes that are not valid UTF-8 are replaced.
pub fn deserialize_row(source: &[u8]) -> (r: Row)
    requires
        source@.len() >= ROW_SIZE,
    ensures
        r@ == decode_row(source@.subrange(0, ROW_SIZE as int)),
{
    let ghost b = source@.subrange(0, ROW_SIZE as int);
    let mut id_bytes: Vec<u8> = Vec::new();
    let mut i: usize = 0;
    while i < ID_SIZE
        invariant
            i <= ID_SIZE,
            source@.len() >= ROW_SIZE,
            id_bytes@ == source@.subrange(0, i as int),
        decreases ID_SIZE - i,
    {
        id_bytes.push(source[i]);
        i += 1;
        assert(id_bytes@ =~= source@.subrange(0, i as int));
    }
    let id = u32_from_le_bytes(id_bytes.as_slice());
    let username = read_text_field(source, USERNAME_OFFSET, USERNAME_SIZE);
    let email = read_text_field(source, EMAIL_OFFSET, EMAIL_SIZE);
    assert(b.subrange(0, ID_SIZE as int) =~= source@.subrange(0, ID_SIZE as int));
    assert(b.subrange(USERNAME_OFFSET as int, EMAIL_OFFSET as int) =~= source@.subrange(
        USERNAME_OFFSET as int,
        USERNAME_OFFSET + USERNAME_SIZE,
    ));
    assert(b.subrange(EMAIL_OFFSET as int, ROW_SIZE as int) =~= source@.subrange(
        EMAIL_OFFSET as int,
        EMAIL_OFFSET + EMAIL_SIZE,
    ));
    Row { id, username, email }
}

} // verus!
