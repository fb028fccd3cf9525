//! Parsing of the kernel's statistics files.
//!
//! A statistics record is a text of lines of the form `key value`. A record
//! type recognizes some keys; a line with another key is passed over, a
//! recognized key that no line holds leaves its field at zero, and a recognized
//! key whose value is no unsigned 64-bit number fails the whole record.

use vstd::prelude::*;
use vstd::slice::slice_subrange;
use crate::text::{
    find_newline, lines, newline_at, parse_u64, spec_parse_u64, spec_trim, strip_cr, to_chars, trim,
    NumberError,
};

verus! {

/// Why a statistics file could not be parsed.
#[derive(Clone, Copy, Debug, PartialEq, Eq, Structural)]
pub enum ParseError {
    /// The value of a recognized key is no number: the line (counted from
    /// zero), the key's place in the record's list of keys, and the reason.
    Field { line: usize, field: usize, kind: NumberError },
    /// A file that holds a single number holds something else.
    Scalar { kind: NumberError },
}

/// Whether `line` consists of `name`, one space, and a value.
pub open spec fn names_field(line: Seq<char>, name: Seq<char>) -> bool {
    &&& line.len() > name.len()
    &&& line.take(name.len() as int) == name
    &&& line[name.len() as int] == ' '
}

/// The first key at or after place `k` that `line` names, or the number of
/// keys if it names none of them.
pub open spec fn field_from(line: Seq<char>, fields: Seq<Seq<char>>, k: nat) -> nat
    decreases fields.len() - k,
{
    if k >= fields.len() {
        fields.len()
    } else if names_field(line, fields[k as int]) {
        k
    } else {
        field_from(line, fields, k + 1)
    }
}

/// The key that `line` names, or the number of keys if it names none.
pub open spec fn field_of(line: Seq<char>, fields: Seq<Seq<char>>) -> nat {
    field_from(line, fields, 0)
}

/// What stands behind the key `name` and its space in `line`.
pub open spec fn value_text(line: Seq<char>, name: Seq<char>) -> Seq<char> {
    line.skip(name.len() as int + 1)
}

/// The record after one more line: unchanged by a line that names no key,
/// else with the named field overwritten by the line's value.
pub open spec fn apply_line(line: Seq<char>, fields: Seq<Seq<char>>, acc: Seq<u64>) -> Result<
    Seq<u64>,
    (nat, NumberError),
> {
    let k = field_of(line, fields);
    if k >= fields.len() {
        Ok(acc)
    } else {
        match spec_parse_u64(value_text(line, fields[k as int])) {
            Ok(v) => Ok(acc.update(k as int, v)),
            Err(kind) => Err((k, kind)),
        }
    }
}

/// The record after the lines `ls`, the first of which has the number `first`,
/// or the first failure among them.
pub open spec fn scan_lines(
    ls: Seq<Seq<char>>,
    fields: Seq<Seq<char>>,
    acc: Seq<u64>,
    first: nat,
) -> Result<Seq<u64>, ParseError>
    decreases ls.len(),
{
    if ls.len() == 0 {
        Ok(acc)
    } else {
        match apply_line(ls[0], fields, acc) {
            Ok(next) => scan_lines(ls.drop_first(), fields, next, first + 1),
            Err((k, kind)) => Err(
                (ParseError::Field { line: first as usize, field: k as usize, kind }),
            ),
        }
    }
}

/// A record of `n` fields, all zero.
pub open spec fn zeros(n: nat) -> Seq<u64> {
    Seq::new(n, |i: int| 0u64)
}

/// The values of the keys `fields` in `text`, in the order of `fields`.
pub open spec fn spec_parse_record(text: Seq<char>, fields: Seq<Seq<char>>) -> Result<
    Seq<u64>,
    ParseError,
> {
    scan_lines(lines(text), fields, zeros(fields.len()), 0)
}

/// The keys of a table of keys, as sequences of characters.
pub open spec fn names_of(fields: Seq<Vec<char>>) -> Seq<Seq<char>> {
    Seq::new(fields.len(), |i: int| fields[i]@)
}

/// A parsed record, with its values as a sequence.
pub open spec fn record_view(r: Result<Vec<u64>, ParseError>) -> Result<Seq<u64>, ParseError> {
    match r {
        Ok(v) => Ok(v@),
        Err(e) => Err(e),
    }
}

/// Whether `line` consists of `name`, one space, and a value.
pub fn starts_with_field(line: &[char], name: &[char]) -> (b: bool)
    ensures
        b == names_field(line@, name@),
{
    let m = name.len();
    if line.len() <= m {
        return false;
    }
    let mut i: usize = 0;
    while i < m
        invariant
            i <= m,
            m == name@.len(),
            m < line@.len(),
            line@.take(i as int) == name@.take(i as int),
        decreases m - i,
    {
        if line[i] != name[i] {
            proof {
                if line@.take(m as int) == name@ {
                    assert(line@.take(m as int)[i as int] == name@[i as int]);
                }
            }
            return false;
        }
        assert(line@.take(i + 1) =~= line@.take(i as int).push(line@[i as int]));
        assert(name@.take(i + 1) =~= name@.take(i as int).push(name@[i as int]));
        i += 1;
    }
    assert(name@.take(m as int) =~= name@);
    line[m] == ' '
}

/// The key that `line` names, if it names one.
pub fn find_field(line: &[char], fields: &Vec<Vec<char>>) -> (r: Option<usize>)
    ensures
        match r {
            Some(k) => {
                &&& k < fields@.len()
                &&& k == field_of(line@, names_of(fields@))
                &&& names_field(line@, fields@[k as int]@)
            },
            None => field_of(line@, names_of(fields@)) == fields@.len(),
        },
{
    let ghost names = names_of(fields@);
    let mut k: usize = 0;
    while k < fields.len()
        invariant
            k <= fields@.len(),
            names == names_of(fields@),
            field_of(line@, names) == field_from(line@, names, k as nat),
        decreases fields@.len() - k,
    {
        assert(names[k as int] == fields@[k as int]@);
        if starts_with_field(line, fields[k].as_slice()) {
            return Some(k);
        }
        k += 1;
    }
    None
}

/// A record of `n` fields, all zero.
fn zero_record(n: usize) -> (v: Vec<u64>)
    ensures
        v@ == zeros(n as nat),
{
    let mut v: Vec<u64> = Vec::new();
    while v.len() < n
        invariant
            v@.len() <= n,
            v@ == zeros(v@.len()),
        decreases n - v@.len(),
    {
        v.push(0);
        assert(v@ =~= zeros(v@.len()));
    }
    v
}

/// Parses a statistics record: the value of each key of `fields` in `text`.
///
/// A key that several lines name has the value of the last of them; the
/// lines are read from the top, and the first value that is no number ends
/// the parse with its line and key.
pub fn parse_record(text: &[char], fields: &Vec<Vec<char>>) -> (r: Result<Vec<u64>, ParseError>)
    ensures
        record_view(r) == spec_parse_record(text@, names_of(fields@)),
{
    let n = text.len();
    let ghost names = names_of(fields@);
    let mut acc = zero_record(fields.len());
    let mut pos: usize = 0;
    let mut line_no: usize = 0;
    assert(text@.skip(0) =~= text@);
    while pos < n
        invariant
            pos <= n,
            n == text@.len(),
            line_no <= pos,
            names == names_of(fields@),
            acc@.len() == fields@.len(),
            spec_parse_record(text@, names) == scan_lines(
                lines(text@.skip(pos as int)),
                names,
                acc@,
                line_no as nat,
            ),
        decreases n - pos,
    {
        let ghost rest = text@.skip(pos as int);
        let end = find_newline(text, pos);
        let terminated = end < n;
        let line_end = if terminated && end > pos && text[end - 1] == '\r' {
            end - 1
        } else {
            end
        };
        let next = if terminated {
            end + 1
        } else {
            end
        };
        let line = slice_subrange(text, pos, line_end);
        proof {
            let k = newline_at(rest) as int;
            assert(k == end - pos);
            assert(rest.take(k) =~= text@.subrange(pos as int, end as int));
            if terminated {
                assert(rest.skip(k + 1) =~= text@.skip(next as int));
                assert(line@ =~= strip_cr(rest.take(k)));
                assert(lines(rest).drop_first() =~= lines(text@.skip(next as int)));
            } else {
                assert(line@ =~= rest);
                assert(text@.skip(next as int) =~= Seq::<char>::empty());
                assert(lines(rest).drop_first() =~= lines(text@.skip(next as int)));
            }
            assert(lines(rest)[0] == line@);
        }
        match find_field(line, fields) {
            None => {},
            Some(k) => {
                assert(names[k as int] == fields@[k as int]@);
                let name_len = fields[k].len();
                let value = slice_subrange(line, name_len + 1, line.len());
                assert(value@ =~= value_text(line@, names[k as int]));
                match parse_u64(value) {
                    Ok(v) => {
                        acc.set(k, v);
                    },
                    Err(kind) => {
                        return Err(ParseError::Field { line: line_no, field: k, kind });
                    },
                }
            },
        }
        pos = next;
        line_no += 1;
    }
    Ok(acc)
}

/// CPU time that a group has used, in microseconds.
#[derive(Clone, Copy, Debug, PartialEq, Eq, Structural)]
pub struct CpuStat {
    pub usage_usec: u64,
    pub user_usec: u64,
    pub system_usec: u64,
}

impl Default for CpuStat {
    fn default() -> (r: Self)
        ensures
            r == (CpuStat { usage_usec: 0, user_usec: 0, system_usec: 0 }),
    {
        CpuStat { usage_usec: 0, user_usec: 0, system_usec: 0 }
    }
}

impl CpuStat {
    /// The keys of `cpu.stat` that the record holds, in the order of its fields.
    pub open spec fn field_names() -> Seq<Seq<char>> {
        seq!["usage_usec"@, "user_usec"@, "system_usec"@]
    }

    pub open spec fn from_values(v: Seq<u64>) -> CpuStat {
        CpuStat { usage_usec: v[0], user_usec: v[1], system_usec: v[2] }
    }

    /// The record that the text of a `cpu.stat` file holds.
    pub open spec fn spec_parse(text: Seq<char>) -> Result<CpuStat, ParseError> {
        match spec_parse_record(text, Self::field_names()) {
            Ok(v) => Ok(Self::from_values(v)),
            Err(e) => Err(e),
        }
    }

    fn fields() -> (f: Vec<Vec<char>>)
        ensures
            names_of(f@) == Self::field_names(),
    {
        let mut f: Vec<Vec<char>> = Vec::new();
        f.push(to_chars("usage_usec"));
        f.push(to_chars("user_usec"));
        f.push(to_chars("system_usec"));
        assert(names_of(f@) =~= Self::field_names());
        f
    }

    /// Parses the text of a `cpu.stat` file.
    pub fn parse(text: &str) -> (r: Result<CpuStat, ParseError>)
        ensures
            r == Self::spec_parse(text@),
    {
        let chars = to_chars(text);
        let fields = Self::fields();
        proof {
            lemma_scan_lines_len(lines(text@), Self::field_names(), zeros(3), 0);
        }
        match parse_record(chars.as_slice(), &fields) {
            Ok(v) => Ok(CpuStat { usage_usec: v[0], user_usec: v[1], system_usec: v[2] }),
            Err(e) => Err(e),
        }
    }
}

/// Memory that a group holds, in bytes, by what it is used for.
#[derive(Clone, Copy, Debug, PartialEq, Eq, Structural)]
pub struct MemoryStat {
    pub anon: u64,
    pub file: u64,
}

impl Default for MemoryStat {
    fn default() -> (r: Self)
        ensures
            r == (MemoryStat { anon: 0, file: 0 }),
    {
        MemoryStat { anon: 0, file: 0 }
    }
}

impl MemoryStat {
    /// The keys of `memory.stat` that the record holds, in the order of its
    /// fields. The file has many more.
    pub open spec fn field_names() -> Seq<Seq<char>> {
        seq!["anon"@, "file"@]
    }

    pub open spec fn from_values(v: Seq<u64>) -> MemoryStat {
        MemoryStat { anon: v[0], file: v[1] }
    }

    /// The record that the text of a `memory.stat` file holds.
    pub open spec fn spec_parse(text: Seq<char>) -> Result<MemoryStat, ParseError> {
        match spec_parse_record(text, Self::field_names()) {
            Ok(v) => Ok(Self::from_values(v)),
            Err(e) => Err(e),
        }
    }

    fn fields() -> (f: Vec<Vec<char>>)
        ensures
            names_of(f@) == Self::field_names(),
    {
        let mut f: Vec<Vec<char>> = Vec::new();
        f.push(to_chars("anon"));
        f.push(to_chars("file"));
        assert(names_of(f@) =~= Self::field_names());
        f
    }

    /// Parses the text of a `memory.stat` file.
    pub fn parse(text: &str) -> (r: Result<MemoryStat, ParseError>)
        ensures
            r == Self::spec_parse(text@),
    {
        let chars = to_chars(text);
        let fields = Self::fields();
        proof {
            lemma_scan_lines_len(lines(text@), Self::field_names(), zeros(2), 0);
        }
        match parse_record(chars.as_slice(), &fields) {
            Ok(v) => Ok(MemoryStat { anon: v[0], file: v[1] }),
            Err(e) => Err(e),
        }
    }
}

/// The number that the text of a `memory.current` file holds: the text
/// without the white space around it, read as an unsigned 64-bit number.
pub open spec fn spec_parse_memory_current(text: Seq<char>) -> Result<u64, ParseError> {
    match spec_parse_u64(spec_trim(text)) {
        Ok(v) => Ok(v),
        Err(kind) => Err((ParseError::Scalar { kind })),
    }
}

/// Parses the text of a `memory.current` file.
pub fn parse_memory_current(text: &str) -> (r: Result<u64, ParseError>)
    ensures
        r == spec_parse_memory_current(text@),
{
    let chars = to_chars(text);
    match parse_u64(trim(chars.as_slice())) {
        Ok(v) => Ok(v),
        Err(kind) => Err(ParseError::Scalar { kind }),
    }
}

/// A record keeps its number of fields through any lines.
proof fn lemma_scan_lines_len(
    ls: Seq<Seq<char>>,
    fields: Seq<Seq<char>>,
    acc: Seq<u64>,
    first: nat,
)
    requires
        acc.len() == fields.len(),
    ensures
        scan_lines(ls, fields, acc, first) matches Ok(v) ==> v.len() == fields.len(),
    decreases ls.len(),
{
    if ls.len() > 0 {
        match apply_line(ls[0], fields, acc) {
            Ok(next) => {
                lemma_scan_lines_len(ls.drop_first(), fields, next, first + 1);
            },
            Err(_) => {},
        }
    }
}

/// Whether `line` names one of the keys `fields`.
pub open spec fn recognized(line: Seq<char>, fields: Seq<Seq<char>>) -> bool {
    field_of(line, fields) < fields.len()
}

/// The values of a record that was parsed, or `None` for one that failed.
pub open spec fn values_of(r: Result<Seq<u64>, ParseError>) -> Option<Seq<u64>> {
    match r {
        Ok(v) => Some(v),
        Err(_) => None,
    }
}

/// The number of the first line bears on the place of a failure only.
pub proof fn lemma_values_whatever_the_first_line(
    ls: Seq<Seq<char>>,
    fields: Seq<Seq<char>>,
    acc: Seq<u64>,
    first: nat,
    other: nat,
)
    ensures
        values_of(scan_lines(ls, fields, acc, first)) == values_of(
            scan_lines(ls, fields, acc, other),
        ),
    decreases ls.len(),
{
    if ls.len() > 0 {
        match apply_line(ls[0], fields, acc) {
            Ok(next) => {
                lemma_values_whatever_the_first_line(
                    ls.drop_first(),
                    fields,
                    next,
                    first + 1,
                    other + 1,
                );
            },
            Err(_) => {},
        }
    }
}

/// A line that names none of the keys is passed over: the record is the one
/// that the lines without it give, and fails where they fail.
pub proof fn lemma_unrecognized_line_is_ignored(
    ls: Seq<Seq<char>>,
    fields: Seq<Seq<char>>,
    acc: Seq<u64>,
    first: nat,
    i: int,
)
    requires
        0 <= i < ls.len(),
        !recognized(ls[i], fields),
    ensures
        values_of(scan_lines(ls, fields, acc, first)) == values_of(
            scan_lines(ls.remove(i), fields, acc, first),
        ),
    decreases i,
{
    if i == 0 {
        assert(ls.remove(0) =~= ls.drop_first());
        lemma_values_whatever_the_first_line(ls.drop_first(), fields, acc, first + 1, first);
    } else {
        assert(ls.remove(i)[0] == ls[0]);
        assert(ls.remove(i).drop_first() =~= ls.drop_first().remove(i - 1));
        match apply_line(ls[0], fields, acc) {
            Ok(next) => {
                lemma_unrecognized_line_is_ignored(ls.drop_first(), fields, next, first + 1, i - 1);
            },
            Err(_) => {},
        }
    }
}

/// A key that no line names keeps the value it had: zero, in a record that
/// starts from zeros.
pub proof fn lemma_absent_field_keeps_its_value(
    ls: Seq<Seq<char>>,
    fields: Seq<Seq<char>>,
    acc: Seq<u64>,
    first: nat,
    k: int,
)
    requires
        0 <= k < fields.len(),
        acc.len() == fields.len(),
        forall|i: int| 0 <= i < ls.len() ==> field_of(#[trigger] ls[i], fields) != k,
    ensures
        scan_lines(ls, fields, acc, first) matches Ok(v) ==> v.len() == fields.len() && v[k]
            == acc[k],
    decreases ls.len(),
{
    if ls.len() > 0 {
        let rest = ls.drop_first();
        assert(field_of(ls[0], fields) != k);
        assert forall|i: int| 0 <= i < rest.len() implies field_of(#[trigger] rest[i], fields)
            != k by {
            assert(rest[i] == ls[i + 1]);
        }
        match apply_line(ls[0], fields, acc) {
            Ok(next) => {
                lemma_absent_field_keeps_its_value(rest, fields, next, first + 1, k);
            },
            Err(_) => {},
        }
    }
}

/// A key that no line of a text names is zero in the text's record.
pub proof fn lemma_absent_field_is_zero(text: Seq<char>, fields: Seq<Seq<char>>, k: int)
    requires
        0 <= k < fields.len(),
        forall|i: int|
            0 <= i < lines(text).len() ==> field_of(#[trigger] lines(text)[i], fields) != k,
    ensures
        spec_parse_record(text, fields) matches Ok(v) ==> v[k] == 0,
{
    lemma_absent_field_keeps_its_value(lines(text), fields, zeros(fields.len()), 0, k);
}

/// One line that names a key and gives it a value that is no number fails
/// the record, whatever the other lines hold.
pub proof fn lemma_malformed_value_fails(
    ls: Seq<Seq<char>>,
    fields: Seq<Seq<char>>,
    acc: Seq<u64>,
    first: nat,
    i: int,
)
    requires
        0 <= i < ls.len(),
        recognized(ls[i], fields),
        spec_parse_u64(value_text(ls[i], fields[field_of(ls[i], fields) as int])) is Err,
    ensures
        scan_lines(ls, fields, acc, first) is Err,
    decreases i,
{
    if i > 0 {
        match apply_line(ls[0], fields, acc) {
            Ok(next) => {
                assert(ls.drop_first()[i - 1] == ls[i]);
                lemma_malformed_value_fails(ls.drop_first(), fields, next, first + 1, i - 1);
            },
            Err(_) => {},
        }
    }
}

/// In a record that was parsed, a key has the value of the last line that
/// names it.
pub proof fn lemma_last_line_gives_the_value(
    ls: Seq<Seq<char>>,
    fields: Seq<Seq<char>>,
    acc: Seq<u64>,
    first: nat,
    i: int,
)
    requires
        acc.len() == fields.len(),
        0 <= i < ls.len(),
        recognized(ls[i], fields),
        forall|j: int|
            i < j < ls.len() ==> field_of(#[trigger] ls[j], fields) != field_of(ls[i], fields),
        scan_lines(ls, fields, acc, first) is Ok,
    ensures
        ({
            let k = field_of(ls[i], fields) as int;
            let v = scan_lines(ls, fields, acc, first)->Ok_0;
            spec_parse_u64(value_text(ls[i], fields[k])) == Ok::<u64, NumberError>(v[k])
        }),
    decreases i,
{
    let rest = ls.drop_first();
    let k = field_of(ls[i], fields) as int;
    let next = apply_line(ls[0], fields, acc)->Ok_0;
    if i == 0 {
        assert forall|j: int| 0 <= j < rest.len() implies field_of(#[trigger] rest[j], fields)
            != k by {
            assert(rest[j] == ls[j + 1]);
        }
        lemma_absent_field_keeps_its_value(rest, fields, next, first + 1, k);
    } else {
        assert(rest[i - 1] == ls[i]);
        assert forall|j: int| i - 1 < j < rest.len() implies field_of(
            #[trigger] rest[j],
            fields,
        ) != k by {
            assert(rest[j] == ls[j + 1]);
        }
        lemma_last_line_gives_the_value(rest, fields, next, first + 1, i - 1);
    }
}

} // verus!
