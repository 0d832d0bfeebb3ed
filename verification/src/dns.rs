//! The DNS wire format, as far as the updater speaks it: a TXT/CH query for a
//! name, and the TXT answers of the response, with compressed names.

use vstd::prelude::*;

use vstd::utf8::encode_utf8;

use crate::text::{
    chars_of, decode_utf8_lossy, lemma_split_char_len, lemma_split_char_step, split_char, trim,
    trimmed, utf8_lossy,
};

verus! {

/// The TXT record type.
pub const DNS_TYPE_TXT: u16 = 16;

/// The CHAOS class.
pub const DNS_CLASS_CH: u16 = 3;

/// The part of a message that an offset was computed for.
#[derive(Debug, Clone, Copy, PartialEq, Eq)]
pub enum DnsField {
    U16,
    QuestionFields,
    AnswerHeader,
    AnswerData,
    NameLabel,
}

/// Errors in building a query or reading a response.
#[derive(Debug, Clone, Copy, PartialEq, Eq)]
pub enum DnsError {
    /// The query name is empty once trailing dots are removed.
    EmptyQueryName,
    /// The query name holds an empty label.
    EmptyLabel,
    /// A label of the query name is longer than 63 bytes.
    LabelTooLong,
    /// The response is shorter than the 12-byte header.
    ShortHeader,
    /// The response carries another id than the query.
    IdMismatch { expected: u16, got: u16 },
    /// The QR bit of the response is not set.
    NotAResponse,
    /// The server answered with a non-zero rcode.
    ServerError(u16),
    /// A name runs past the end of the response.
    NameOutOfBounds,
    /// A compression pointer lacks its second byte.
    IncompletePointer,
    /// More than 16 compression pointers were followed.
    TooManyJumps,
    /// A label starts with the bits 01 or 10.
    UnsupportedLabel,
    /// An offset does not fit in a `usize`.
    OffsetOverflow(DnsField),
    /// A field runs past the end of the response.
    Truncated(DnsField),
    /// A character-string of a TXT record runs past its record.
    TxtOverrun,
}

/// Whether an offset computed in machine integers is the one the spec gives.
pub open spec fn same_offset(r: Result<usize, DnsError>, s: Result<int, DnsError>) -> bool {
    match r {
        Ok(v) => s == Ok::<int, DnsError>(v as int),
        Err(e) => s == Err::<int, DnsError>(e),
    }
}

/// `offset + len`, if it fits in a `usize` and does not pass `max`.
pub open spec fn checked_add_spec(offset: int, len: int, max: int, field: DnsField) -> Result<
    int,
    DnsError,
> {
    if offset + len > usize::MAX {
        Err(DnsError::OffsetOverflow(field))
    } else if offset + len > max {
        Err(DnsError::Truncated(field))
    } else {
        Ok(offset + len)
    }
}

/// Adds a length to an offset within a message of `max` bytes.
pub fn checked_add(offset: usize, len: usize, max: usize, field: DnsField) -> (r: Result<
    usize,
    DnsError,
>)
    ensures
        same_offset(r, checked_add_spec(offset as int, len as int, max as int, field)),
{
    match offset.checked_add(len) {
        None => Err(DnsError::OffsetOverflow(field)),
        Some(end) => if end > max {
            Err(DnsError::Truncated(field))
        } else {
            Ok(end)
        },
    }
}

/// The big-endian 16-bit number at `offset`.
pub open spec fn u16_at(b: Seq<u8>, offset: int) -> u16 {
    (b[offset] as int * 256 + b[offset + 1] as int) as u16
}

pub open spec fn read_u16_spec(b: Seq<u8>, offset: int) -> Result<u16, DnsError> {
    match checked_add_spec(offset, 2, b.len() as int, DnsField::U16) {
        Ok(_) => Ok(u16_at(b, offset)),
        Err(e) => Err(e),
    }
}

/// Reads the big-endian 16-bit number at `offset`.
pub fn read_u16(bytes: &[u8], offset: usize) -> (r: Result<u16, DnsError>)
    ensures
        r == read_u16_spec(bytes@, offset as int),
{
    let end = checked_add(offset, 2, bytes.len(), DnsField::U16)?;
    Ok((bytes[offset] as u16) * 256 + bytes[end - 1] as u16)
}

/// Where the name at `offset` ends, following compression pointers.
/// `jumped` says whether a pointer was followed, `jumps` how many, and `next`
/// where the message goes on after the name once a pointer was followed.
pub open spec fn skip_name_from(
    b: Seq<u8>,
    offset: int,
    jumped: bool,
    jumps: int,
    next: int,
) -> Result<int, DnsError>
    decreases 17 - jumps, b.len() - offset,
{
    if offset < 0 || offset >= b.len() {
        Err(DnsError::NameOutOfBounds)
    } else {
        let length = b[offset];
        if length >= 192 {
            if offset + 1 >= b.len() {
                Err(DnsError::IncompletePointer)
            } else if jumps + 1 > 16 {
                Err(DnsError::TooManyJumps)
            } else {
                let pointer = (length - 192) * 256 + b[offset + 1];
                skip_name_from(
                    b,
                    pointer,
                    true,
                    jumps + 1,
                    if jumped {
                        next
                    } else {
                        offset + 2
                    },
                )
            }
        } else if length >= 64 {
            Err(DnsError::UnsupportedLabel)
        } else if length == 0 {
            Ok(
                if jumped {
                    next
                } else {
                    offset + 1
                },
            )
        } else {
            match checked_add_spec(offset + 1, length as int, b.len() as int, DnsField::NameLabel) {
                Err(e) => Err(e),
                Ok(end) => skip_name_from(
                    b,
                    end,
                    jumped,
                    jumps,
                    if jumped {
                        next
                    } else {
                        end
                    },
                ),
            }
        }
    }
}

/// Where the message goes on after the (possibly compressed) name at `offset`.
pub open spec fn skip_name_spec(b: Seq<u8>, offset: int) -> Result<int, DnsError> {
    skip_name_from(b, offset, false, 0, offset)
}

/// Skips the name at `offset`, giving the offset just past it; a compressed
/// name ends just past its first pointer. At most 16 pointers are followed.
pub fn skip_name(bytes: &[u8], offset: usize) -> (r: Result<usize, DnsError>)
    ensures
        same_offset(r, skip_name_spec(bytes@, offset as int)),
{
    let ghost start = offset as int;
    let mut pos = offset;
    let mut jumped = false;
    let mut jumps: usize = 0;
    let mut next_offset = pos;
    loop
        invariant
            jumps <= 16,
            start == offset as int,
            skip_name_spec(bytes@, start) == skip_name_from(
                bytes@,
                pos as int,
                jumped,
                jumps as int,
                next_offset as int,
            ),
        decreases 17 - jumps, bytes@.len() - pos,
    {
        if pos >= bytes.len() {
            return Err(DnsError::NameOutOfBounds);
        }
        let length = bytes[pos];
        if length >= 192 {
            if pos + 1 >= bytes.len() {
                return Err(DnsError::IncompletePointer);
            }
            if !jumped {
                next_offset = pos + 2;
            }
            let pointer = ((length - 192) as usize) * 256 + bytes[pos + 1] as usize;
            pos = pointer;
            jumped = true;
            jumps = jumps + 1;
            if jumps > 16 {
                return Err(DnsError::TooManyJumps);
            }
            continue ;
        }
        if length >= 64 {
            return Err(DnsError::UnsupportedLabel);
        }
        pos = pos + 1;
        if length == 0 {
            return Ok(
                if jumped {
                    next_offset
                } else {
                    pos
                },
            );
        }
        pos = checked_add(pos, length as usize, bytes.len(), DnsField::NameLabel)?;
        if !jumped {
            next_offset = pos;
        }
    }
}


// ---------------------------------------------------------------------------
// TXT record data

/// The text of TXT record data: its character-strings (a length byte, then
/// that many bytes) decoded one by one and put together.
pub open spec fn txt_spec(b: Seq<u8>) -> Result<Seq<char>, DnsError>
    decreases b.len(),
{
    if b.len() == 0 {
        Ok(Seq::empty())
    } else {
        let length = b[0] as int;
        if b.len() - 1 < length {
            Err(DnsError::TxtOverrun)
        } else {
            match txt_spec(b.subrange(1 + length, b.len() as int)) {
                Ok(rest) => Ok(utf8_lossy(b.subrange(1, 1 + length)) + rest),
                Err(e) => Err(e),
            }
        }
    }
}

/// Whether a computed string is the one the spec gives.
pub open spec fn same_text(r: Result<String, DnsError>, s: Result<Seq<char>, DnsError>) -> bool {
    match r {
        Ok(v) => s == Ok::<Seq<char>, DnsError>(v@),
        Err(e) => s == Err::<Seq<char>, DnsError>(e),
    }
}

/// Decodes the data of a TXT record.
pub fn parse_txt_rdata(bytes: &[u8]) -> (r: Result<String, DnsError>)
    ensures
        same_text(r, txt_spec(bytes@)),
{
    let mut value = String::new();
    let mut pos: usize = 0;
    assert(bytes@.subrange(0, bytes@.len() as int) =~= bytes@);
    assert(value@ + Seq::<char>::empty() =~= value@);
    while pos < bytes.len()
        invariant
            pos <= bytes@.len(),
            txt_spec(bytes@) == (match txt_spec(bytes@.subrange(pos as int, bytes@.len() as int)) {
                Ok(rest) => Ok(value@ + rest),
                Err(e) => Err(e),
            }),
        decreases bytes@.len() - pos,
    {
        let ghost cur = bytes@.subrange(pos as int, bytes@.len() as int);
        let length = bytes[pos] as usize;
        let rest = bytes.len() - pos - 1;
        assert(cur[0] == bytes@[pos as int]);
        if rest < length {
            return Err(DnsError::TxtOverrun);
        }
        let chunk = &bytes[pos + 1..pos + 1 + length];
        let text = decode_utf8_lossy(chunk);
        let ghost before = value@;
        value.append(text.as_str());
        proof {
            assert(cur.subrange(1, 1 + length as int) =~= chunk@);
            assert(cur.subrange(1 + length as int, cur.len() as int) =~= bytes@.subrange(
                pos + 1 + length,
                bytes@.len() as int,
            ));
            match txt_spec(bytes@.subrange(pos + 1 + length, bytes@.len() as int)) {
                Ok(r2) => {
                    assert(before + (text@ + r2) =~= value@ + r2);
                },
                Err(_) => {},
            }
        }
        pos = pos + 1 + length;
    }
    assert(bytes@.subrange(pos as int, bytes@.len() as int) =~= Seq::<u8>::empty());
    assert(value@ + Seq::<char>::empty() =~= value@);
    Ok(value)
}


// ---------------------------------------------------------------------------
// Query names

/// `s` without its trailing dots.
pub open spec fn trim_end_dots(s: Seq<char>) -> Seq<char>
    decreases s.len(),
{
    if s.len() > 0 && s.last() == '.' {
        trim_end_dots(s.drop_last())
    } else {
        s
    }
}

/// Why a label cannot be encoded, if it cannot.
pub open spec fn label_error(label: Seq<char>) -> Option<DnsError> {
    if label.len() == 0 {
        Some(DnsError::EmptyLabel)
    } else if encode_utf8(label).len() > 63 {
        Some(DnsError::LabelTooLong)
    } else {
        None
    }
}

/// A label on the wire: its length in bytes, then its UTF-8 bytes.
pub open spec fn label_bytes(label: Seq<char>) -> Seq<u8> {
    seq![encode_utf8(label).len() as u8] + encode_utf8(label)
}

/// The bytes written for `labels`, up to the first label that cannot be
/// encoded, and the error of that label.
pub open spec fn encode_labels(labels: Seq<Seq<char>>) -> (Seq<u8>, Option<DnsError>)
    decreases labels.len(),
{
    if labels.len() == 0 {
        (Seq::empty(), None)
    } else {
        let (out, err) = encode_labels(labels.drop_last());
        if err is Some {
            (out, err)
        } else {
            match label_error(labels.last()) {
                Some(e) => (out, Some(e)),
                None => (out + label_bytes(labels.last()), None),
            }
        }
    }
}

/// What encoding a query name writes, and its error if it has one: the name
/// without trailing dots, split at dots into labels, then a zero byte.
pub open spec fn qname_spec(name: Seq<char>) -> (Seq<u8>, Option<DnsError>) {
    let t = trim_end_dots(name);
    if t.len() == 0 {
        (Seq::empty(), Some(DnsError::EmptyQueryName))
    } else {
        let (out, err) = encode_labels(split_char(t, '.'));
        if err is Some {
            (out, err)
        } else {
            (out.push(0u8), None)
        }
    }
}

proof fn lemma_encode_labels_sticky(a: Seq<Seq<char>>, b: Seq<Seq<char>>)
    requires
        a.len() <= b.len(),
        forall|i: int| 0 <= i < a.len() ==> a[i] == b[i],
        encode_labels(a).1 is Some,
    ensures
        encode_labels(b) == encode_labels(a),
    decreases b.len(),
{
    if b.len() == a.len() {
        assert(a =~= b);
    } else {
        lemma_encode_labels_sticky(a, b.drop_last());
    }
}

proof fn lemma_split_prefix(t: Seq<char>, sep: char, k: int, j: int)
    requires
        0 <= k <= j <= t.len(),
    ensures
        split_char(t.take(k), sep).len() <= split_char(t.take(j), sep).len(),
        forall|i: int|
            0 <= i < split_char(t.take(k), sep).len() - 1 ==> #[trigger] split_char(t.take(j), sep)[i]
                == split_char(t.take(k), sep)[i],
    decreases j - k,
{
    if k < j {
        lemma_split_prefix(t, sep, k, j - 1);
        assert(t.take(j).drop_last() =~= t.take(j - 1));
        lemma_split_char_len(t.take(j - 1), sep);
    }
}

/// Writes one label, or reports why it cannot be written.
fn push_label(label: &str, bytes: &mut Vec<u8>) -> (r: Result<(), DnsError>)
    ensures
        match label_error(label@) {
            Some(e) => r == Err::<(), DnsError>(e) && final(bytes)@ == old(bytes)@,
            None => r is Ok && final(bytes)@ == old(bytes)@ + label_bytes(label@),
        },
{
    if label.is_empty() {
        return Err(DnsError::EmptyLabel);
    }
    let n = label.len();
    if n > 63 {
        return Err(DnsError::LabelTooLong);
    }
    let raw = label.as_bytes();
    let ghost start = bytes@;
    bytes.push(n as u8);
    let mut i: usize = 0;
    while i < raw.len()
        invariant
            i <= raw@.len(),
            raw@ == encode_utf8(label@),
            bytes@ == start + seq![n as u8] + raw@.take(i as int),
        decreases raw@.len() - i,
    {
        bytes.push(raw[i]);
        i = i + 1;
        assert(bytes@ =~= start + seq![n as u8] + raw@.take(i as int));
    }
    assert(raw@.take(raw@.len() as int) =~= raw@);
    assert(bytes@ =~= start + label_bytes(label@));
    Ok(())
}

/// Writes a query name in DNS wire form: trailing dots dropped, each label
/// as its length and bytes, then a zero byte. On an error, the labels before
/// the faulty one stay written.
pub fn encode_qname(query_name: &str, bytes: &mut Vec<u8>) -> (r: Result<(), DnsError>)
    ensures
        final(bytes)@ == old(bytes)@ + qname_spec(query_name@).0,
        match r {
            Ok(_) => qname_spec(query_name@).1 is None,
            Err(e) => qname_spec(query_name@).1 == Some(e),
        },
{
    let chars = chars_of(query_name);
    let mut end = chars.len();
    assert(chars@.take(end as int) =~= chars@);
    while end > 0 && chars[end - 1] == '.'
        invariant
            end <= chars@.len(),
            trim_end_dots(chars@) == trim_end_dots(chars@.take(end as int)),
        decreases end,
    {
        assert(chars@.take(end as int).drop_last() =~= chars@.take(end - 1));
        end = end - 1;
    }
    assert(chars@.take(chars@.len() as int) =~= chars@);
    assert(chars@ == query_name@);
    let ghost t = chars@.take(end as int);
    assert(trim_end_dots(chars@) == t);
    if end == 0 {
        assert(bytes@ =~= old(bytes)@ + Seq::<u8>::empty());
        return Err(DnsError::EmptyQueryName);
    }
    let ghost done: Seq<Seq<char>> = Seq::empty();
    let ghost base = bytes@;
    let mut start: usize = 0;
    let mut i: usize = 0;
    assert(t.take(0) =~= Seq::<char>::empty());
    assert(t.subrange(0, 0) =~= Seq::<char>::empty());
    assert(split_char(t.take(0), '.') =~= done.push(t.subrange(0, 0)));
    assert(bytes@ =~= base + encode_labels(done).0);
    while i < end
        invariant
            0 < end <= chars@.len(),
            chars@ == query_name@,
            t == chars@.take(end as int),
            t == trim_end_dots(query_name@),
            base == old(bytes)@,
            start <= i <= end,
            split_char(t.take(i as int), '.') == done.push(t.subrange(start as int, i as int)),
            encode_labels(done).1 is None,
            bytes@ == base + encode_labels(done).0,
        decreases end - i,
    {
        proof {
            lemma_split_char_step(t, '.', done, start as int, i as int);
        }
        if chars[i] == '.' {
            let label = query_name.substring_char(start, i);
            let ghost piece = t.subrange(start as int, i as int);
            assert(label@ =~= piece);
            let ghost next_done = done.push(piece);
            assert(next_done.drop_last() =~= done);
            let pushed = push_label(label, bytes);
            match pushed {
                Err(e) => {
                    proof {
                        lemma_split_prefix(t, '.', i + 1, end as int);
                        assert(t.take(end as int) =~= t);
                        assert forall|k: int| 0 <= k < next_done.len() implies next_done[k]
                            == split_char(t, '.')[k] by {
                            assert(split_char(t.take(i + 1), '.')[k] == next_done[k]);
                        }
                        lemma_encode_labels_sticky(next_done, split_char(t, '.'));
                    }
                    return Err(e);
                },
                Ok(_) => {},
            }
            proof {
                done = next_done;
            }
            start = i + 1;
        }
        i = i + 1;
    }
    let label = query_name.substring_char(start, end);
    let ghost piece = t.subrange(start as int, end as int);
    assert(label@ =~= piece);
    let ghost next_done = done.push(piece);
    assert(next_done.drop_last() =~= done);
    assert(t.take(end as int) =~= t);
    assert(split_char(t, '.') == next_done);
    push_label(label, bytes)?;
    bytes.push(0);
    Ok(())
}

/// The two bytes of `v`, most significant first.
pub open spec fn be_bytes(v: u16) -> Seq<u8> {
    seq![(v / 256) as u8, (v % 256) as u8]
}

/// A query header: the id, all flags clear, one question, no other records.
pub open spec fn query_header(id: u16) -> Seq<u8> {
    be_bytes(id) + seq![0u8, 0u8, 0u8, 1u8, 0u8, 0u8, 0u8, 0u8, 0u8, 0u8]
}

/// The question's type (TXT) and class (CH).
pub open spec fn txt_ch_question_tail() -> Seq<u8> {
    seq![0u8, 16u8, 0u8, 3u8]
}

fn push_u16(bytes: &mut Vec<u8>, v: u16)
    ensures
        final(bytes)@ == old(bytes)@ + be_bytes(v),
{
    bytes.push((v / 256) as u8);
    bytes.push((v % 256) as u8);
    assert(bytes@ =~= old(bytes)@ + be_bytes(v));
}

/// A DNS query for the TXT record of class CH of `query_name`.
pub fn build_txt_ch_query(id: u16, query_name: &str) -> (r: Result<Vec<u8>, DnsError>)
    ensures
        match r {
            Ok(query) => qname_spec(query_name@).1 is None && query@ == query_header(id)
                + qname_spec(query_name@).0 + txt_ch_question_tail(),
            Err(e) => qname_spec(query_name@).1 == Some(e),
        },
{
    let mut bytes: Vec<u8> = Vec::new();
    push_u16(&mut bytes, id);
    push_u16(&mut bytes, 0);
    push_u16(&mut bytes, 1);
    push_u16(&mut bytes, 0);
    push_u16(&mut bytes, 0);
    push_u16(&mut bytes, 0);
    assert(bytes@ =~= query_header(id));
    let ghost header = bytes@;
    encode_qname(query_name, &mut bytes)?;
    let ghost named = bytes@;
    push_u16(&mut bytes, DNS_TYPE_TXT);
    push_u16(&mut bytes, DNS_CLASS_CH);
    assert(bytes@ =~= named + txt_ch_question_tail());
    Ok(bytes)
}


// ---------------------------------------------------------------------------
// Responses

/// A name that parses ends inside the message.
pub proof fn lemma_skip_name_bound(b: Seq<u8>, offset: int, jumped: bool, jumps: int, next: int)
    requires
        jumped ==> 0 <= next <= b.len(),
    ensures
        skip_name_from(b, offset, jumped, jumps, next) matches Ok(r) ==> 0 <= r <= b.len(),
    decreases 17 - jumps, b.len() - offset,
{
    if 0 <= offset < b.len() {
        let length = b[offset];
        if length >= 192 {
            if offset + 1 < b.len() && jumps + 1 <= 16 {
                let pointer = (length - 192) * 256 + b[offset + 1];
                lemma_skip_name_bound(
                    b,
                    pointer,
                    true,
                    jumps + 1,
                    if jumped {
                        next
                    } else {
                        offset + 2
                    },
                );
            }
        } else if length < 64 && length != 0 {
            match checked_add_spec(offset + 1, length as int, b.len() as int, DnsField::NameLabel) {
                Err(_) => {},
                Ok(end) => {
                    lemma_skip_name_bound(
                        b,
                        end,
                        jumped,
                        jumps,
                        if jumped {
                            next
                        } else {
                            end
                        },
                    );
                },
            }
        }
    }
}

/// Where the message goes on after `n` questions starting at `start`.
pub open spec fn skip_questions(b: Seq<u8>, start: int, n: nat) -> Result<int, DnsError>
    decreases n,
{
    if n == 0 {
        Ok(start)
    } else {
        match skip_questions(b, start, (n - 1) as nat) {
            Err(e) => Err(e),
            Ok(o) => match skip_name_spec(b, o) {
                Err(e) => Err(e),
                Ok(p) => checked_add_spec(p, 4, b.len() as int, DnsField::QuestionFields),
            },
        }
    }
}

/// One answer record at `o`: where the next one starts, and its trimmed text
/// if it is a TXT record of class CH whose text is not blank.
pub open spec fn answer_step(b: Seq<u8>, o: int) -> Result<(int, Option<Seq<char>>), DnsError> {
    match skip_name_spec(b, o) {
        Err(e) => Err(e),
        Ok(p) => match read_u16_spec(b, p) {
            Err(e) => Err(e),
            Ok(record_type) => match read_u16_spec(b, p + 2) {
                Err(e) => Err(e),
                Ok(record_class) => match read_u16_spec(b, p + 8) {
                    Err(e) => Err(e),
                    Ok(rdlength) => match checked_add_spec(
                        p,
                        10,
                        b.len() as int,
                        DnsField::AnswerHeader,
                    ) {
                        Err(e) => Err(e),
                        Ok(q) => match checked_add_spec(
                            q,
                            rdlength as int,
                            b.len() as int,
                            DnsField::AnswerData,
                        ) {
                            Err(e) => Err(e),
                            Ok(end) => if record_type == DNS_TYPE_TXT && record_class
                                == DNS_CLASS_CH {
                                match txt_spec(b.subrange(q, end)) {
                                    Err(e) => Err(e),
                                    Ok(text) => {
                                        let t = trim(text);
                                        Ok((end, if t.len() > 0 { Some(t) } else { None }))
                                    },
                                }
                            } else {
                                Ok((end, None))
                            },
                        },
                    },
                },
            },
        },
    }
}

/// Where the message goes on after `n` answers from `start`, and the texts
/// collected from them in order.
pub open spec fn answers_after(b: Seq<u8>, start: int, n: nat) -> Result<
    (int, Seq<Seq<char>>),
    DnsError,
>
    decreases n,
{
    if n == 0 {
        Ok((start, Seq::empty()))
    } else {
        match answers_after(b, start, (n - 1) as nat) {
            Err(e) => Err(e),
            Ok((o, texts)) => match answer_step(b, o) {
                Err(e) => Err(e),
                Ok((next, found)) => Ok(
                    (
                        next,
                        match found {
                            Some(t) => texts.push(t),
                            None => texts,
                        },
                    ),
                ),
            },
        }
    }
}

/// The TXT answers that a response carries, or why it is refused.
pub open spec fn extract_spec(expected_id: u16, b: Seq<u8>) -> Result<Seq<Seq<char>>, DnsError> {
    if b.len() < 12 {
        Err(DnsError::ShortHeader)
    } else if u16_at(b, 0) != expected_id {
        Err(DnsError::IdMismatch { expected: expected_id, got: u16_at(b, 0) })
    } else if u16_at(b, 2) < 0x8000 {
        Err(DnsError::NotAResponse)
    } else if u16_at(b, 2) % 16 != 0 {
        Err(DnsError::ServerError(u16_at(b, 2) % 16))
    } else {
        match skip_questions(b, 12, u16_at(b, 4) as nat) {
            Err(e) => Err(e),
            Ok(o) => match answers_after(b, o, u16_at(b, 6) as nat) {
                Err(e) => Err(e),
                Ok((_, texts)) => Ok(texts),
            },
        }
    }
}

proof fn lemma_skip_questions_sticky(b: Seq<u8>, start: int, i: nat, n: nat)
    requires
        i <= n,
        skip_questions(b, start, i) is Err,
    ensures
        skip_questions(b, start, n) == skip_questions(b, start, i),
    decreases n - i,
{
    if i < n {
        lemma_skip_questions_sticky(b, start, i, (n - 1) as nat);
    }
}

proof fn lemma_answers_after_sticky(b: Seq<u8>, start: int, i: nat, n: nat)
    requires
        i <= n,
        answers_after(b, start, i) is Err,
    ensures
        answers_after(b, start, n) == answers_after(b, start, i),
    decreases n - i,
{
    if i < n {
        lemma_answers_after_sticky(b, start, i, (n - 1) as nat);
    }
}

/// The characters of each string, in order.
pub open spec fn strings_view(v: Seq<String>) -> Seq<Seq<char>> {
    v.map_values(|s: String| s@)
}

pub open spec fn option_view(o: Option<String>) -> Option<Seq<char>> {
    match o {
        Some(s) => Some(s@),
        None => None,
    }
}

/// Reads one answer record at `offset`.
fn read_answer(bytes: &[u8], offset: usize) -> (r: Result<(usize, Option<String>), DnsError>)
    requires
        bytes@.len() <= isize::MAX,
    ensures
        match r {
            Ok((next, found)) => answer_step(bytes@, offset as int) == Ok::<
                (int, Option<Seq<char>>),
                DnsError,
            >((next as int, option_view(found))) && next <= bytes@.len(),
            Err(e) => answer_step(bytes@, offset as int) == Err::<
                (int, Option<Seq<char>>),
                DnsError,
            >(e),
        },
{
    let p = skip_name(bytes, offset)?;
    proof {
        lemma_skip_name_bound(bytes@, offset as int, false, 0, offset as int);
    }
    let record_type = read_u16(bytes, p)?;
    let record_class = read_u16(bytes, p + 2)?;
    let rdlength = read_u16(bytes, p + 8)? as usize;
    let q = checked_add(p, 10, bytes.len(), DnsField::AnswerHeader)?;
    let end = checked_add(q, rdlength, bytes.len(), DnsField::AnswerData)?;
    if record_type == DNS_TYPE_TXT && record_class == DNS_CLASS_CH {
        let txt = parse_txt_rdata(&bytes[q..end])?;
        let t = trimmed(txt.as_str());
        if t.is_empty() {
            Ok((end, None))
        } else {
            Ok((end, Some(String::from_str(t))))
        }
    } else {
        Ok((end, None))
    }
}

/// The TXT answers of class CH in a response to the query with id
/// `expected_id`, each trimmed, the blank ones left out.
pub fn extract_txt_answers(expected_id: u16, bytes: &[u8]) -> (r: Result<Vec<String>, DnsError>)
    requires
        bytes@.len() <= isize::MAX,
    ensures
        match r {
            Ok(texts) => extract_spec(expected_id, bytes@) == Ok::<Seq<Seq<char>>, DnsError>(
                strings_view(texts@),
            ),
            Err(e) => extract_spec(expected_id, bytes@) == Err::<Seq<Seq<char>>, DnsError>(e),
        },
{
    if bytes.len() < 12 {
        return Err(DnsError::ShortHeader);
    }
    let response_id = read_u16(bytes, 0)?;
    if response_id != expected_id {
        return Err(DnsError::IdMismatch { expected: expected_id, got: response_id });
    }
    let flags = read_u16(bytes, 2)?;
    if flags < 0x8000 {
        return Err(DnsError::NotAResponse);
    }
    let rcode = flags % 16;
    if rcode != 0 {
        return Err(DnsError::ServerError(rcode));
    }
    let question_count = read_u16(bytes, 4)?;
    let answer_count = read_u16(bytes, 6)?;
    let mut offset: usize = 12;
    let mut i: u16 = 0;
    while i < question_count
        invariant
            bytes@.len() <= isize::MAX,
            bytes@.len() >= 12,
            u16_at(bytes@, 0) == expected_id,
            u16_at(bytes@, 2) >= 0x8000,
            u16_at(bytes@, 2) % 16 == 0,
            question_count == u16_at(bytes@, 4),
            answer_count == u16_at(bytes@, 6),
            i <= question_count,
            skip_questions(bytes@, 12, i as nat) == Ok::<int, DnsError>(offset as int),
        decreases question_count - i,
    {
        let step = skip_name(bytes, offset);
        match step {
            Err(e) => {
                proof {
                    lemma_skip_questions_sticky(bytes@, 12, (i + 1) as nat, question_count as nat);
                }
                return Err(e);
            },
            Ok(p) => {
                let added = checked_add(p, 4, bytes.len(), DnsField::QuestionFields);
                match added {
                    Err(e) => {
                        proof {
                            lemma_skip_questions_sticky(
                                bytes@,
                                12,
                                (i + 1) as nat,
                                question_count as nat,
                            );
                        }
                        return Err(e);
                    },
                    Ok(o) => {
                        offset = o;
                    },
                }
            },
        }
        i = i + 1;
    }
    let ghost questions_end = offset as int;
    let mut answers: Vec<String> = Vec::new();
    let mut j: u16 = 0;
    assert(strings_view(answers@) =~= Seq::<Seq<char>>::empty());
    while j < answer_count
        invariant
            bytes@.len() <= isize::MAX,
            bytes@.len() >= 12,
            u16_at(bytes@, 0) == expected_id,
            u16_at(bytes@, 2) >= 0x8000,
            u16_at(bytes@, 2) % 16 == 0,
            question_count == u16_at(bytes@, 4),
            answer_count == u16_at(bytes@, 6),
            skip_questions(bytes@, 12, question_count as nat) == Ok::<int, DnsError>(questions_end),
            j <= answer_count,
            answers_after(bytes@, questions_end, j as nat) == Ok::<
                (int, Seq<Seq<char>>),
                DnsError,
            >((offset as int, strings_view(answers@))),
        decreases answer_count - j,
    {
        let step = read_answer(bytes, offset);
        match step {
            Err(e) => {
                proof {
                    lemma_answers_after_sticky(
                        bytes@,
                        questions_end,
                        (j + 1) as nat,
                        answer_count as nat,
                    );
                }
                return Err(e);
            },
            Ok((next, found)) => {
                let ghost before = answers@;
                match found {
                    Some(text) => {
                        answers.push(text);
                        assert(strings_view(answers@) =~= strings_view(before).push(text@));
                    },
                    None => {},
                }
                offset = next;
            },
        }
        j = j + 1;
    }
    Ok(answers)
}


// ---------------------------------------------------------------------------
// Laws

proof fn lemma_encode_utf8_nonempty(chars: Seq<char>)
    requires
        chars.len() > 0,
    ensures
        encode_utf8(chars).len() > 0,
{
    assert(encode_utf8(chars) == vstd::utf8::encode_scalar(chars[0] as u32) + encode_utf8(
        chars.drop_first(),
    ));
}

proof fn lemma_skip_labels(d: Seq<u8>, base: int, labels: Seq<Seq<char>>)
    requires
        encode_labels(labels).1 is None,
        0 <= base,
        base + encode_labels(labels).0.len() <= d.len() <= usize::MAX,
        d.subrange(base, base + encode_labels(labels).0.len()) == encode_labels(labels).0,
    ensures
        skip_name_from(d, base, false, 0, base) == skip_name_from(
            d,
            base + encode_labels(labels).0.len(),
            false,
            0,
            base + encode_labels(labels).0.len(),
        ),
    decreases labels.len(),
{
    if labels.len() > 0 {
        let prev = encode_labels(labels.drop_last()).0;
        let l = labels.last();
        let enc = encode_utf8(l);
        let out = encode_labels(labels).0;
        assert(encode_labels(labels.drop_last()).1 is None);
        assert(out == prev + label_bytes(l));
        assert(d.subrange(base, base + prev.len()) =~= out.subrange(0, prev.len() as int));
        assert(out.subrange(0, prev.len() as int) =~= prev);
        lemma_skip_labels(d, base, labels.drop_last());
        lemma_encode_utf8_nonempty(l);
        let o = base + prev.len();
        assert(d[o] == out[prev.len() as int]);
        assert(d[o] == enc.len() as u8);
        assert(out.len() == prev.len() + 1 + enc.len());
    }
}

/// Law: skipping the name of a query, wherever it stands in a message, lands
/// just past the name as it was encoded.
pub proof fn law_skip_encoded_name(prefix: Seq<u8>, name: Seq<char>, rest: Seq<u8>)
    requires
        qname_spec(name).1 is None,
        prefix.len() + qname_spec(name).0.len() + rest.len() <= usize::MAX,
    ensures
        skip_name_spec(prefix + qname_spec(name).0 + rest, prefix.len() as int) == Ok::<
            int,
            DnsError,
        >((prefix.len() + qname_spec(name).0.len()) as int),
{
    let t = trim_end_dots(name);
    let labels = split_char(t, '.');
    let out = encode_labels(labels).0;
    let q = qname_spec(name).0;
    let d = prefix + q + rest;
    let base = prefix.len() as int;
    assert(q == out.push(0u8));
    assert(d.subrange(base, base + out.len()) =~= out);
    lemma_skip_labels(d, base, labels);
    assert(d[base + out.len()] == 0u8);
}


/// Whether a result is no server error.
spec fn no_server_error<T>(r: Result<T, DnsError>) -> bool {
    !(r matches Err(DnsError::ServerError(_)))
}

proof fn lemma_skip_name_no_server_error(b: Seq<u8>, offset: int, jumped: bool, jumps: int, next: int)
    ensures
        no_server_error(skip_name_from(b, offset, jumped, jumps, next)),
    decreases 17 - jumps, b.len() - offset,
{
    if offset < 0 || offset >= b.len() {
    } else {
        let length = b[offset];
        if length >= 192 {
            if offset + 1 >= b.len() {
            } else if jumps + 1 > 16 {
            } else {
                let pointer = (length - 192) * 256 + b[offset + 1];
                lemma_skip_name_no_server_error(
                    b,
                    pointer,
                    true,
                    jumps + 1,
                    if jumped {
                        next
                    } else {
                        offset + 2
                    },
                );
            }
        } else if length >= 64 {
        } else if length == 0 {
        } else {
            match checked_add_spec(offset + 1, length as int, b.len() as int, DnsField::NameLabel) {
                Err(e) => {},
                Ok(end) => {
                    lemma_skip_name_no_server_error(
                        b,
                        end,
                        jumped,
                        jumps,
                        if jumped {
                            next
                        } else {
                            end
                        },
                    );
                },
            }
        }
    }
}

proof fn lemma_txt_no_server_error(b: Seq<u8>)
    ensures
        no_server_error(txt_spec(b)),
    decreases b.len(),
{
    if b.len() > 0 {
        let length = b[0] as int;
        if b.len() - 1 >= length {
            lemma_txt_no_server_error(b.subrange(1 + length, b.len() as int));
        }
    }
}

proof fn lemma_skip_questions_no_server_error(b: Seq<u8>, start: int, n: nat)
    ensures
        no_server_error(skip_questions(b, start, n)),
    decreases n,
{
    if n > 0 {
        lemma_skip_questions_no_server_error(b, start, (n - 1) as nat);
        match skip_questions(b, start, (n - 1) as nat) {
            Err(_) => {},
            Ok(o) => {
                lemma_skip_name_no_server_error(b, o, false, 0, o);
            },
        }
    }
}

proof fn lemma_answers_no_server_error(b: Seq<u8>, start: int, n: nat)
    ensures
        no_server_error(answers_after(b, start, n)),
    decreases n,
{
    if n > 0 {
        lemma_answers_no_server_error(b, start, (n - 1) as nat);
        match answers_after(b, start, (n - 1) as nat) {
            Err(_) => {},
            Ok((o, _)) => {
                lemma_skip_name_no_server_error(b, o, false, 0, o);
                match skip_name_spec(b, o) {
                    Err(_) => {},
                    Ok(p) => {
                        match (read_u16_spec(b, p + 8), checked_add_spec(p, 10, b.len() as int, DnsField::AnswerHeader)) {
                            (Ok(rdlength), Ok(q)) => match checked_add_spec(
                                q,
                                rdlength as int,
                                b.len() as int,
                                DnsField::AnswerData,
                            ) {
                                Ok(end) => lemma_txt_no_server_error(b.subrange(q, end)),
                                Err(_) => {},
                            },
                            _ => {},
                        }
                    },
                }
            },
        }
    }
}

/// Law: a response from the queried id with its QR bit set is refused as a
/// server error exactly when its rcode, the low four bits of the flags (the
/// low nibble of byte 3), is not zero, and the error carries that rcode. The
/// other flag bits (AA, TC, RD, RA, Z) never make a response a server error.
pub proof fn law_server_error_is_the_rcode(expected_id: u16, b: Seq<u8>)
    requires
        b.len() >= 12,
        b[0] as int * 256 + b[1] as int == expected_id as int,
        b[2] >= 128,
    ensures
        b[3] % 16 == 0 ==> !(extract_spec(expected_id, b) matches Err(DnsError::ServerError(_))),
        b[3] % 16 != 0 ==> extract_spec(expected_id, b) == Err::<Seq<Seq<char>>, DnsError>(
            DnsError::ServerError((b[3] % 16) as u16),
        ),
{
    let hi = b[2] as int;
    let lo = b[3] as int;
    let id = b[0] as int * 256 + b[1] as int;
    assert(0 <= id < 65536) by (nonlinear_arith)
        requires
            id == b[0] as int * 256 + b[1] as int,
            0 <= b[0] < 256,
            0 <= b[1] < 256,
    ;
    assert(u16_at(b, 0) == expected_id);
    let flags = hi * 256 + lo;
    assert(32768 <= flags < 65536 && flags % 16 == lo % 16) by (nonlinear_arith)
        requires
            flags == hi * 256 + lo,
            128 <= hi < 256,
            0 <= lo < 256,
    ;
    assert(u16_at(b, 2) as int == flags);
    assert(u16_at(b, 2) % 16 == (lo % 16) as u16);
    lemma_skip_questions_no_server_error(b, 12, u16_at(b, 4) as nat);
    match skip_questions(b, 12, u16_at(b, 4) as nat) {
        Err(_) => {},
        Ok(o) => lemma_answers_no_server_error(b, o, u16_at(b, 6) as nat),
    }
}

} // verus!
