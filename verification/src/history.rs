//! The history of detected addresses: per record type, the addresses seen,
//! oldest first, with the time each was recorded; and its file format, one
//! entry per line as `TYPE|UNIX_SECONDS|IP`.

use vstd::prelude::*;

use crate::config::{record_type_name, RecordType};
use crate::ip::IpAddress;
use crate::text::{
    first_non_ws, is_digit, lemma_decimal_digits, lemma_split_char_append, lemma_split_char_concat,
    lemma_split_char_no_sep,
    lemma_split_char_two, lemma_trim_fixed_ends, lemma_trim_of_clean_ends, law_parse_u64_of_decimal,
    chars_of, decimal, parse_u64, parse_u64_spec, push_char, push_decimal, ranges_view,
    same_text, split_char, split_ranges, string_of_range, trim, trim_bounds, trimmed,
};

verus! {

broadcast use vstd::string::group_string_axioms;

/// An address that a record type held, and when it was recorded (Unix
/// seconds; 0 when not known).
#[derive(Debug, Clone, Copy, PartialEq, Eq, Structural)]
pub struct HistoryEntry {
    pub ip: IpAddress,
    pub changed_at: u64,
}

/// The addresses recorded for each record type, oldest first.
pub struct History {
    pub a: Vec<HistoryEntry>,
    pub aaaa: Vec<HistoryEntry>,
}

/// The entries recorded for a record type, oldest first.
pub open spec fn entries_of(history: History, record_type: RecordType) -> Seq<HistoryEntry> {
    match record_type {
        RecordType::A => history.a@,
        RecordType::Aaaa => history.aaaa@,
    }
}

/// The newest `limit` entries.
pub open spec fn kept_newest(entries: Seq<HistoryEntry>, limit: nat) -> Seq<HistoryEntry> {
    if entries.len() > limit {
        entries.skip(entries.len() - limit)
    } else {
        entries
    }
}

fn keep_newest(entries: &mut Vec<HistoryEntry>, limit: usize)
    ensures
        final(entries)@ == kept_newest(old(entries)@, limit as nat),
{
    let ghost start = entries@;
    while entries.len() > limit
        invariant
            entries@.len() >= limit || entries@ == start,
            kept_newest(start, limit as nat) == kept_newest(entries@, limit as nat),
        decreases entries@.len(),
    {
        let ghost before = entries@;
        entries.remove(0);
        assert(entries@ =~= before.skip(1));
        assert(before.skip(before.len() - limit) =~= entries@.skip(entries@.len() - limit));
    }
}

impl History {
    /// No entries.
    pub fn new() -> (h: Self)
        ensures
            entries_of(h, RecordType::A).len() == 0,
            entries_of(h, RecordType::Aaaa).len() == 0,
    {
        History { a: Vec::new(), aaaa: Vec::new() }
    }

    /// The entries of a record type, oldest first.
    pub fn entries(&self, record_type: RecordType) -> (e: &Vec<HistoryEntry>)
        ensures
            e@ == entries_of(*self, record_type),
    {
        match record_type {
            RecordType::A => &self.a,
            RecordType::Aaaa => &self.aaaa,
        }
    }

    /// The newest entry of a record type.
    pub fn latest_entry(&self, record_type: RecordType) -> (e: Option<&HistoryEntry>)
        ensures
            entries_of(*self, record_type).len() == 0 ==> e is None,
            entries_of(*self, record_type).len() > 0 ==> (e matches Some(x) && *x == entries_of(
                *self,
                record_type,
            ).last()),
    {
        let entries = self.entries(record_type);
        if entries.len() == 0 {
            None
        } else {
            Some(&entries[entries.len() - 1])
        }
    }

    /// The last address recorded for a record type.
    pub fn get(&self, record_type: RecordType) -> (ip: Option<IpAddress>)
        ensures
            entries_of(*self, record_type).len() == 0 ==> ip is None,
            entries_of(*self, record_type).len() > 0 ==> ip == Some(
                entries_of(*self, record_type).last().ip,
            ),
    {
        match self.latest_entry(record_type) {
            Some(entry) => Some(entry.ip),
            None => None,
        }
    }

    /// Records a new address for a record type, keeping the newest `limit`
    /// entries of that type; the other type is untouched.
    pub fn set(&mut self, record_type: RecordType, ip: IpAddress, changed_at: u64, limit: usize)
        ensures
            entries_of(*final(self), record_type) == kept_newest(
                entries_of(*old(self), record_type).push(HistoryEntry { ip, changed_at }),
                limit as nat,
            ),
            forall|other: RecordType|
                other != record_type ==> entries_of(*final(self), other) == entries_of(
                    *old(self),
                    other,
                ),
    {
        let entry = HistoryEntry { ip, changed_at };
        match record_type {
            RecordType::A => {
                self.a.push(entry);
                keep_newest(&mut self.a, limit);
            },
            RecordType::Aaaa => {
                self.aaaa.push(entry);
                keep_newest(&mut self.aaaa, limit);
            },
        }
    }

    /// Adds an entry read from the history file, as the newest of its type.
    pub fn push_loaded(&mut self, record_type: RecordType, entry: HistoryEntry)
        ensures
            entries_of(*final(self), record_type) == entries_of(*old(self), record_type).push(entry),
            forall|other: RecordType|
                other != record_type ==> entries_of(*final(self), other) == entries_of(
                    *old(self),
                    other,
                ),
    {
        match record_type {
            RecordType::A => self.a.push(entry),
            RecordType::Aaaa => self.aaaa.push(entry),
        }
    }
}

/// Why a line of the history file could not be read.
#[derive(Debug, Clone, Copy, PartialEq, Eq)]
pub enum HistoryError {
    /// The line does not have exactly three `|`-separated fields.
    MalformedLine,
    /// The first field is neither `A` nor `AAAA`.
    UnknownRecordType,
    /// The second field is not a number of seconds.
    BadTimestamp,
}

/// A line of the history file, the address still in text form.
pub struct HistoryLine {
    pub record_type: RecordType,
    pub changed_at: u64,
    pub ip_text: String,
}

/// The record type whose history key is `key`.
pub open spec fn record_type_of_key(key: Seq<char>) -> Option<RecordType> {
    if key == record_type_name(RecordType::A) {
        Some(RecordType::A)
    } else if key == record_type_name(RecordType::Aaaa) {
        Some(RecordType::Aaaa)
    } else {
        None
    }
}

/// What a line of the history file reads as: the trimmed line split at `|`
/// into a history key, a number of seconds and an address.
pub open spec fn history_line_spec(line: Seq<char>) -> Result<
    (RecordType, u64, Seq<char>),
    HistoryError,
> {
    let fields = split_char(trim(line), '|');
    if fields.len() != 3 {
        Err(HistoryError::MalformedLine)
    } else {
        match record_type_of_key(fields[0]) {
            None => Err(HistoryError::UnknownRecordType),
            Some(t) => match parse_u64_spec(fields[1]) {
                None => Err(HistoryError::BadTimestamp),
                Some(secs) => Ok((t, secs, fields[2])),
            },
        }
    }
}

pub open spec fn history_line_view(line: HistoryLine) -> (RecordType, u64, Seq<char>) {
    (line.record_type, line.changed_at, line.ip_text@)
}

/// Reads a line of the history file.
pub fn parse_history_line(line: &str) -> (r: Result<HistoryLine, HistoryError>)
    ensures
        match r {
            Ok(l) => history_line_spec(line@) == Ok::<(RecordType, u64, Seq<char>), HistoryError>(
                history_line_view(l),
            ),
            Err(e) => history_line_spec(line@) == Err::<(RecordType, u64, Seq<char>), HistoryError>(
                e,
            ),
        },
{
    let chars = chars_of(line);
    let (a, b) = trim_bounds(&chars, 0, chars.len());
    assert(chars@.subrange(0, chars@.len() as int) =~= line@);
    let fields = split_ranges(&chars, a, b, '|');
    let ghost views = ranges_view(chars@, fields@);
    if fields.len() != 3 {
        return Err(HistoryError::MalformedLine);
    }
    let (k0, k1) = fields[0];
    let key = string_of_range(&chars, k0, k1);
    assert(key@ == views[0]);
    proof {
        reveal_strlit("A");
        reveal_strlit("AAAA");
        assert("A"@ =~= record_type_name(RecordType::A));
        assert("AAAA"@ =~= record_type_name(RecordType::Aaaa));
        assert(views == split_char(trim(line@), '|'));
    }
    let record_type = if same_text(key.as_str(), "A") {
        RecordType::A
    } else if same_text(key.as_str(), "AAAA") {
        RecordType::Aaaa
    } else {
        return Err(HistoryError::UnknownRecordType);
    };
    let (s0, s1) = fields[1];
    assert(chars@.subrange(s0 as int, s1 as int) == views[1]);
    let changed_at = match parse_u64(&chars, s0, s1) {
        Some(v) => v,
        None => {
            return Err(HistoryError::BadTimestamp);
        },
    };
    let (i0, i1) = fields[2];
    let ip_text = string_of_range(&chars, i0, i1);
    assert(ip_text@ == views[2]);
    Ok(HistoryLine { record_type, changed_at, ip_text })
}

/// A line of the history file.
pub open spec fn history_line_text(record_type: RecordType, changed_at: u64, ip_text: Seq<char>) -> Seq<
    char,
> {
    record_type_name(record_type) + seq!['|'] + decimal(changed_at as nat) + seq!['|'] + ip_text
}

/// Writes a line of the history file (without its line break).
pub fn format_history_line(record_type: RecordType, changed_at: u64, ip_text: &str) -> (line: String)
    ensures
        line@ == history_line_text(record_type, changed_at, ip_text@),
{
    let mut line = String::from_str(record_type.history_key());
    push_char(&mut line, '|');
    push_decimal(&mut line, changed_at);
    push_char(&mut line, '|');
    line.append(ip_text);
    line
}


/// What the lines of a history file read as, in order, blank lines skipped;
/// the first line that cannot be read gives the error.
pub open spec fn history_text_spec(lines: Seq<Seq<char>>) -> Result<
    Seq<(RecordType, u64, Seq<char>)>,
    HistoryError,
>
    decreases lines.len(),
{
    if lines.len() == 0 {
        Ok(Seq::empty())
    } else {
        match history_text_spec(lines.drop_last()) {
            Err(e) => Err(e),
            Ok(read) => if trim(lines.last()).len() == 0 {
                Ok(read)
            } else {
                match history_line_spec(lines.last()) {
                    Err(e) => Err(e),
                    Ok(l) => Ok(read.push(l)),
                }
            },
        }
    }
}

pub open spec fn history_lines_view(lines: Seq<HistoryLine>) -> Seq<(RecordType, u64, Seq<char>)> {
    lines.map_values(|l: HistoryLine| history_line_view(l))
}

proof fn lemma_history_text_sticky(a: Seq<Seq<char>>, b: Seq<Seq<char>>)
    requires
        a.len() <= b.len(),
        forall|i: int| 0 <= i < a.len() ==> a[i] == b[i],
        history_text_spec(a) is Err,
    ensures
        history_text_spec(b) == history_text_spec(a),
    decreases b.len(),
{
    if b.len() == a.len() {
        assert(a =~= b);
    } else {
        lemma_history_text_sticky(a, b.drop_last());
    }
}

/// Reads the lines of a history file (split at line breaks).
pub fn parse_history_text(text: &str) -> (r: Result<Vec<HistoryLine>, HistoryError>)
    ensures
        match r {
            Ok(lines) => history_text_spec(split_char(text@, '\n')) == Ok::<
                Seq<(RecordType, u64, Seq<char>)>,
                HistoryError,
            >(history_lines_view(lines@)),
            Err(e) => history_text_spec(split_char(text@, '\n')) == Err::<
                Seq<(RecordType, u64, Seq<char>)>,
                HistoryError,
            >(e),
        },
{
    let chars = chars_of(text);
    let ranges = split_ranges(&chars, 0, chars.len(), '\n');
    assert(chars@.subrange(0, chars@.len() as int) =~= text@);
    let ghost all = ranges_view(chars@, ranges@);
    let mut lines: Vec<HistoryLine> = Vec::new();
    let mut i: usize = 0;
    assert(all.take(0) =~= Seq::<Seq<char>>::empty());
    assert(history_lines_view(lines@) =~= Seq::<(RecordType, u64, Seq<char>)>::empty());
    while i < ranges.len()
        invariant
            chars@ == text@,
            all == ranges_view(chars@, ranges@),
            all == split_char(text@, '\n'),
            forall|k: int|
                0 <= k < ranges@.len() ==> 0 <= (#[trigger] ranges@[k]).0 <= ranges@[k].1
                    <= chars@.len(),
            i <= ranges@.len(),
            history_text_spec(all.take(i as int)) == Ok::<
                Seq<(RecordType, u64, Seq<char>)>,
                HistoryError,
            >(history_lines_view(lines@)),
        decreases ranges@.len() - i,
    {
        let (r0, r1) = ranges[i];
        let piece = text.substring_char(r0, r1);
        assert(piece@ == all[i as int]);
        assert(all.take(i + 1).drop_last() =~= all.take(i as int));
        assert(all.take(i + 1).last() == all[i as int]);
        let t = trimmed(piece);
        if !t.is_empty() {
            match parse_history_line(piece) {
                Ok(l) => {
                    let ghost before = lines@;
                    lines.push(l);
                    assert(history_lines_view(lines@) =~= history_lines_view(before).push(
                        history_line_view(l),
                    ));
                },
                Err(e) => {
                    proof {
                        lemma_history_text_sticky(all.take(i + 1), all);
                    }
                    return Err(e);
                },
            }
        }
        i = i + 1;
    }
    assert(all.take(ranges@.len() as int) =~= all);
    Ok(lines)
}


/// Law: a history line reads back as what it was written from, when the
/// address text is not empty, holds no `|` and has no white space at its
/// ends (as addresses in text form never do).
pub proof fn law_history_line_roundtrip(record_type: RecordType, changed_at: u64, ip_text: Seq<char>)
    requires
        ip_text.len() > 0,
        !ip_text.contains('|'),
        trim(ip_text) == ip_text,
    ensures
        history_line_spec(history_line_text(record_type, changed_at, ip_text)) == Ok::<
            (RecordType, u64, Seq<char>),
            HistoryError,
        >((record_type, changed_at, ip_text)),
{
    let name = record_type_name(record_type);
    let dec = decimal(changed_at as nat);
    let line = history_line_text(record_type, changed_at, ip_text);
    lemma_decimal_digits(changed_at as nat);
    lemma_trim_fixed_ends(ip_text);
    assert(line.last() == ip_text.last());
    assert(line[0] == 'A');
    lemma_trim_of_clean_ends(line);
    assert(!name.contains('|')) by {
        if name.contains('|') {
            let k = choose|k: int| 0 <= k < name.len() && name[k] == '|';
            assert(name[k] == 'A');
        }
    }
    assert(!dec.contains('|')) by {
        if dec.contains('|') {
            let k = choose|k: int| 0 <= k < dec.len() && dec[k] == '|';
            assert(is_digit(dec[k]));
        }
    }
    lemma_split_char_two(name, '|', dec);
    lemma_split_char_concat(name + seq!['|'] + dec, '|', ip_text);
    lemma_split_char_no_sep(ip_text, '|');
    assert(line =~= (name + seq!['|'] + dec) + seq!['|'] + ip_text);
    assert(split_char(line, '|') =~= seq![name, dec, ip_text]);
    law_parse_u64_of_decimal(changed_at);
}


/// The text of a history file: each line followed by a line break.
pub open spec fn history_file_text(lines: Seq<(RecordType, u64, Seq<char>)>) -> Seq<char>
    decreases lines.len(),
{
    if lines.len() == 0 {
        Seq::empty()
    } else {
        let l = lines.last();
        history_file_text(lines.drop_last()) + history_line_text(l.0, l.1, l.2) + seq!['\n']
    }
}

/// Writes the text of a history file from its lines, in order.
pub fn format_history_text(lines: &Vec<HistoryLine>) -> (text: String)
    ensures
        text@ == history_file_text(history_lines_view(lines@)),
{
    let mut text = String::new();
    let mut i: usize = 0;
    while i < lines.len()
        invariant
            i <= lines@.len(),
            text@ == history_file_text(history_lines_view(lines@.take(i as int))),
        decreases lines@.len() - i,
    {
        let l = &lines[i];
        let line = format_history_line(l.record_type, l.changed_at, l.ip_text.as_str());
        text.append(line.as_str());
        push_char(&mut text, '\n');
        proof {
            let v = history_lines_view(lines@.take(i + 1));
            assert(v.drop_last() =~= history_lines_view(lines@.take(i as int)));
            assert(v.last() == history_line_view(lines@[i as int]));
        }
        i = i + 1;
    }
    assert(lines@.take(lines@.len() as int) =~= lines@);
    text
}

/// Whether an address text can stand in a history line and read back as
/// itself: not empty, no `|` or line break in it, no white space at its ends
/// (as addresses in text form never have).
pub open spec fn storable_ip_text(ip_text: Seq<char>) -> bool {
    &&& ip_text.len() > 0
    &&& !ip_text.contains('|')
    &&& !ip_text.contains('\n')
    &&& trim(ip_text) == ip_text
}

proof fn lemma_line_has_no_break(record_type: RecordType, changed_at: u64, ip_text: Seq<char>)
    requires
        !ip_text.contains('\n'),
    ensures
        !history_line_text(record_type, changed_at, ip_text).contains('\n'),
        history_line_text(record_type, changed_at, ip_text).len() > 0,
        history_line_text(record_type, changed_at, ip_text)[0] == 'A',
{
    let line = history_line_text(record_type, changed_at, ip_text);
    let name = record_type_name(record_type);
    let dec = decimal(changed_at as nat);
    lemma_decimal_digits(changed_at as nat);
    if line.contains('\n') {
        let k = choose|k: int| 0 <= k < line.len() && line[k] == '\n';
        if k < name.len() {
            assert(line[k] == name[k]);
        } else if k == name.len() {
            assert(line[k] == '|');
        } else if k < name.len() + 1 + dec.len() {
            assert(line[k] == dec[k - name.len() - 1]);
            assert(is_digit(dec[k - name.len() - 1]));
        } else if k == name.len() + 1 + dec.len() {
            assert(line[k] == '|');
        } else {
            assert(line[k] == ip_text[k - name.len() - 2 - dec.len()]);
        }
    }
}

proof fn lemma_history_file_pieces(lines: Seq<(RecordType, u64, Seq<char>)>)
    requires
        forall|i: int| 0 <= i < lines.len() ==> storable_ip_text(#[trigger] lines[i].2),
    ensures
        split_char(history_file_text(lines), '\n') == lines.map_values(
            |l: (RecordType, u64, Seq<char>)| history_line_text(l.0, l.1, l.2),
        ).push(Seq::<char>::empty()),
    decreases lines.len(),
{
    if lines.len() == 0 {
        assert(split_char(Seq::<char>::empty(), '\n') =~= seq![Seq::<char>::empty()]);
        assert(lines.map_values(
            |l: (RecordType, u64, Seq<char>)| history_line_text(l.0, l.1, l.2),
        ).push(Seq::<char>::empty()) =~= seq![Seq::<char>::empty()]);
    } else {
        let rest = lines.drop_last();
        let l = lines.last();
        assert(forall|i: int| 0 <= i < rest.len() ==> #[trigger] rest[i].2 == lines[i].2);
        lemma_history_file_pieces(rest);
        let line = history_line_text(l.0, l.1, l.2);
        assert(storable_ip_text(lines[lines.len() - 1].2));
        lemma_line_has_no_break(l.0, l.1, l.2);
        let front = history_file_text(rest);
        lemma_split_char_append(front, '\n', line);
        let whole = history_file_text(lines);
        assert(whole == front + line + seq!['\n']);
        assert(whole.drop_last() =~= front + line);
        assert(whole.last() == '\n');
        let f = |l: (RecordType, u64, Seq<char>)| history_line_text(l.0, l.1, l.2);
        let before = rest.map_values(f).push(Seq::<char>::empty());
        assert(before.last() + line =~= line);
        assert(before.update(before.len() - 1, line) =~= lines.map_values(f));
    }
}

proof fn lemma_history_lines_read_back(lines: Seq<(RecordType, u64, Seq<char>)>)
    requires
        forall|i: int| 0 <= i < lines.len() ==> storable_ip_text(#[trigger] lines[i].2),
    ensures
        history_text_spec(
            lines.map_values(|l: (RecordType, u64, Seq<char>)| history_line_text(l.0, l.1, l.2)),
        ) == Ok::<Seq<(RecordType, u64, Seq<char>)>, HistoryError>(lines),
    decreases lines.len(),
{
    let f = |l: (RecordType, u64, Seq<char>)| history_line_text(l.0, l.1, l.2);
    let texts = lines.map_values(f);
    if lines.len() == 0 {
        assert(texts =~= Seq::<Seq<char>>::empty());
        assert(lines =~= Seq::<(RecordType, u64, Seq<char>)>::empty());
    } else {
        let rest = lines.drop_last();
        let l = lines.last();
        assert(forall|i: int| 0 <= i < rest.len() ==> #[trigger] rest[i].2 == lines[i].2);
        lemma_history_lines_read_back(rest);
        assert(texts.drop_last() =~= rest.map_values(f));
        assert(storable_ip_text(lines[lines.len() - 1].2));
        let line = history_line_text(l.0, l.1, l.2);
        assert(texts.last() == line);
        lemma_line_has_no_break(l.0, l.1, l.2);
        law_history_line_roundtrip(l.0, l.1, l.2);
        lemma_trim_fixed_ends(l.2);
        assert(line.last() == l.2.last());
        lemma_trim_of_clean_ends(line);
        assert(rest.push(l) =~= lines);
    }
}

/// Law: a history file reads back as the lines it was written from, in
/// order, when each address text is storable (as the text form of every
/// address is).
pub proof fn law_history_file_roundtrip(lines: Seq<(RecordType, u64, Seq<char>)>)
    requires
        forall|i: int| 0 <= i < lines.len() ==> storable_ip_text(#[trigger] lines[i].2),
    ensures
        history_text_spec(split_char(history_file_text(lines), '\n')) == Ok::<
            Seq<(RecordType, u64, Seq<char>)>,
            HistoryError,
        >(lines),
{
    lemma_history_file_pieces(lines);
    lemma_history_lines_read_back(lines);
    let texts = lines.map_values(
        |l: (RecordType, u64, Seq<char>)| history_line_text(l.0, l.1, l.2),
    );
    let all = texts.push(Seq::<char>::empty());
    assert(all.drop_last() =~= texts);
    assert(trim(Seq::<char>::empty()) =~= Seq::<char>::empty()) by {
        assert(first_non_ws(Seq::<char>::empty(), 0, 0) == 0);
    }
}

/// Law: recording an address leaves exactly the newest `limit` entries of
/// the old ones followed by the new one, or all of them when there are no
/// more than `limit`: as many as `min(limit, old + 1)`, in order, ending with
/// the new entry.
pub proof fn law_history_keeps_exactly_the_newest(
    entries: Seq<HistoryEntry>,
    entry: HistoryEntry,
    limit: nat,
)
    ensures
        ({
            let all = entries.push(entry);
            let kept = kept_newest(all, limit);
            &&& kept.len() == (if limit < entries.len() + 1 {
                limit
            } else {
                entries.len() + 1
            })
            &&& forall|i: int|
                0 <= i < kept.len() ==> #[trigger] kept[i] == all[all.len() - kept.len() + i]
        }),
{
}

/// Law: recording an address keeps it as the newest entry, and keeps at most
/// `limit` entries, when the limit allows any.
pub proof fn law_history_keeps_newest(entries: Seq<HistoryEntry>, entry: HistoryEntry, limit: nat)
    requires
        limit >= 1,
    ensures
        kept_newest(entries.push(entry), limit).len() > 0,
        kept_newest(entries.push(entry), limit).last() == entry,
        kept_newest(entries.push(entry), limit).len() <= limit,
{
    let all = entries.push(entry);
    if all.len() > limit {
        let k = all.skip(all.len() - limit);
        assert(k.last() == all.last());
    }
}

} // verus!
