//! The text formats of a run: lines of the configuration file, lines of the
//! initial state file, and the lines that are written for snapshots and
//! histories. Reading and writing the files is left to the caller.

use vstd::prelude::*;
use vstd::string::StrSliceExecFns;
use crate::text::{
    find_sep, first_sep, parse_u8, spec_parse_u8, spec_trim, to_chars, trim_range,
};

verus! {

/// The line of a configuration file after which nothing is read.
pub const COMMENT_LINE: &'static str =
    "/////////////////////////////// | GENERAL INFO | ///////////////////////////////";

/// Whether the line, without the whitespace around it, is `COMMENT_LINE`.
pub fn is_comment_line(line: &str) -> (stop: bool)
    ensures
        stop == (spec_trim(line@) == COMMENT_LINE@),
{
    let chars = to_chars(line);
    let mark = to_chars(COMMENT_LINE);
    let (from, to) = trim_range(&chars, 0, chars.len());
    assert(chars@.subrange(0, chars@.len() as int) =~= chars@);
    let ghost t = chars@.subrange(from as int, to as int);
    if to - from != mark.len() {
        return false;
    }
    let mut i: usize = 0;
    while i < mark.len()
        invariant
            i <= mark@.len(),
            from <= to <= chars@.len(),
            to - from == mark@.len(),
            t == chars@.subrange(from as int, to as int),
            t == spec_trim(line@),
            mark@ == COMMENT_LINE@,
            forall|j: int| 0 <= j < i ==> t[j] == mark@[j],
        decreases mark@.len() - i,
    {
        if chars[from + i] != mark[i] {
            assert(t[i as int] != mark@[i as int]);
            return false;
        }
        i += 1;
    }
    assert(t =~= mark@);
    true
}

/// The key and the value of a configuration line: the line is trimmed and
/// cut at its first `:`, and both parts are trimmed. A line without a key or
/// without a value has neither.
pub open spec fn spec_key_value(line: Seq<char>) -> Option<(Seq<char>, Seq<char>)> {
    let t = spec_trim(line);
    let i = first_sep(t, ':') as int;
    let key = spec_trim(t.take(i));
    let value = if i < t.len() {
        spec_trim(t.skip(i + 1))
    } else {
        Seq::<char>::empty()
    };
    if key.len() == 0 || value.len() == 0 {
        None
    } else {
        Some((key, value))
    }
}

/// The key and the value of a configuration line, if it has both.
pub fn split_key_value(line: &str) -> (kv: Option<(String, String)>)
    ensures
        kv is Some <==> spec_key_value(line@) is Some,
        kv matches Some(pair) ==> Some((pair.0@, pair.1@)) == spec_key_value(line@),
{
    let chars = to_chars(line);
    let (a, b) = trim_range(&chars, 0, chars.len());
    assert(chars@.subrange(0, chars@.len() as int) =~= chars@);
    let ghost t = chars@.subrange(a as int, b as int);
    let at = find_sep(&chars, a, b, ':');
    let ghost i = (at - a) as int;
    assert(chars@.subrange(a as int, at as int) =~= t.take(i));
    let (ka, kb) = trim_range(&chars, a, at);
    let (va, vb) = if at < b {
        assert(chars@.subrange(at + 1, b as int) =~= t.skip(i + 1));
        trim_range(&chars, at + 1, b)
    } else {
        (b, b)
    };
    if ka == kb || va == vb {
        return None;
    }
    let key = line.substring_char(ka, kb).to_owned();
    let value = line.substring_char(va, vb).to_owned();
    Some((key, value))
}

/// The numbers in the fields of `s` between `:`; a field that is no number
/// of at most 255 is passed over.
pub open spec fn field_values(s: Seq<char>) -> Seq<u8>
    decreases s.len(),
{
    let i = first_sep(s, ':') as int;
    let head = match spec_parse_u8(spec_trim(s.take(i))) {
        Some(v) => seq![v],
        None => Seq::<u8>::empty(),
    };
    if i >= s.len() {
        head
    } else {
        head + field_values(s.skip(i + 1))
    }
}

/// Whether a line of the state file holds a state: it is not blank and has a
/// `:`.
pub open spec fn is_state_line(line: Seq<char>) -> bool {
    let t = spec_trim(line);
    t.len() > 0 && first_sep(t, ':') < t.len()
}

/// The sites that a line of the state file holds.
pub open spec fn line_values(line: Seq<char>) -> Seq<u8> {
    field_values(spec_trim(line))
}

/// Reads one line of the state file: `None` for a line that holds no state,
/// else the numbers in its fields.
pub fn parse_state_line(line: &str) -> (values: Option<Vec<u8>>)
    ensures
        values is Some <==> is_state_line(line@),
        values matches Some(v) ==> v@ == line_values(line@),
{
    let chars = to_chars(line);
    let (a, b) = trim_range(&chars, 0, chars.len());
    assert(chars@.subrange(0, chars@.len() as int) =~= chars@);
    let ghost t = chars@.subrange(a as int, b as int);
    if a == b {
        return None;
    }
    let first = find_sep(&chars, a, b, ':');
    if first == b {
        return None;
    }
    let mut out: Vec<u8> = Vec::new();
    let mut start = a;
    let mut done = false;
    while !done
        invariant
            a <= start <= b <= chars@.len(),
            t == chars@.subrange(a as int, b as int),
            !done ==> out@ + field_values(chars@.subrange(start as int, b as int))
                == field_values(t),
            done ==> out@ == field_values(t),
        decreases b - start + (if done { 0int } else { 1int }),
    {
        let ghost rest = chars@.subrange(start as int, b as int);
        let at = find_sep(&chars, start, b, ':');
        let ghost i = (at - start) as int;
        assert(chars@.subrange(start as int, at as int) =~= rest.take(i));
        let (fa, fb) = trim_range(&chars, start, at);
        let ghost before = out@;
        match parse_u8(&chars, fa, fb) {
            Some(v) => {
                out.push(v);
            },
            None => {},
        }
        proof {
            let head = match spec_parse_u8(spec_trim(rest.take(i))) {
                Some(v) => seq![v],
                None => Seq::<u8>::empty(),
            };
            assert(out@ =~= before + head);
        }
        if at >= b {
            done = true;
            assert(out@ =~= before + field_values(rest));
        } else {
            assert(chars@.subrange(at + 1, b as int) =~= rest.skip(i + 1));
            assert(before + field_values(rest) =~= out@ + field_values(rest.skip(i + 1)));
            start = at + 1;
        }
    }
    Some(out)
}

/// Why the initial states could not be loaded.
#[derive(Clone, Copy, Debug, PartialEq, Eq, Structural)]
pub enum LoadError {
    /// Line number `line`, counted from one, holds `got` sites where
    /// `expected` are needed.
    InvalidData { line: usize, expected: usize, got: usize },
    /// The file holds only `found` states where `wanted` were asked for.
    NotFound { wanted: i64, found: usize },
}

/// The outcome of loading when no line is left: the states loaded, unless
/// fewer were found than a positive `load_option` asks for.
pub open spec fn spec_load_end(load_option: i64, loaded: Seq<Seq<u8>>) -> Result<
    Seq<Seq<u8>>,
    LoadError,
> {
    if load_option > 0 && loaded.len() < load_option {
        Err(LoadError::NotFound { wanted: load_option, found: loaded.len() as usize })
    } else {
        Ok(loaded)
    }
}

/// The outcome of loading from line `k` on, `loaded` being the states of the
/// lines before: a line that holds no state is passed over; loading stops
/// when a positive `load_option` is reached; a state of the wrong length is
/// an error; any other state is added.
pub open spec fn spec_load_from(
    lines: Seq<Seq<char>>,
    k: int,
    load_option: i64,
    expected_len: usize,
    loaded: Seq<Seq<u8>>,
) -> Result<Seq<Seq<u8>>, LoadError>
    decreases lines.len() - k,
{
    if k < 0 || k >= lines.len() {
        spec_load_end(load_option, loaded)
    } else if !is_state_line(lines[k]) {
        spec_load_from(lines, k + 1, load_option, expected_len, loaded)
    } else if load_option > 0 && loaded.len() >= load_option {
        spec_load_end(load_option, loaded)
    } else if line_values(lines[k]).len() != expected_len {
        Err(
            LoadError::InvalidData {
                line: (k + 1) as usize,
                expected: expected_len,
                got: line_values(lines[k]).len() as usize,
            },
        )
    } else {
        spec_load_from(
            lines,
            k + 1,
            load_option,
            expected_len,
            loaded.push(line_values(lines[k])),
        )
    }
}

/// The outcome of loading the initial states from the lines of the state
/// file: none with a `load_option` of zero, the first `load_option` states
/// with a positive one, all states with a negative one.
pub open spec fn spec_load_states(lines: Seq<Seq<char>>, load_option: i64, expected_len: usize) -> Result<
    Seq<Seq<u8>>,
    LoadError,
> {
    if load_option == 0 {
        Ok(Seq::empty())
    } else {
        spec_load_from(lines, 0, load_option, expected_len, Seq::empty())
    }
}

/// The sites of every state.
pub open spec fn rows(states: Seq<Vec<u8>>) -> Seq<Seq<u8>> {
    Seq::new(states.len(), |i: int| states[i]@)
}

/// The text of every line.
pub open spec fn texts(lines: Seq<String>) -> Seq<Seq<char>> {
    Seq::new(lines.len(), |i: int| lines[i]@)
}

/// Loads the initial states from the lines of the state file, each state
/// with `expected_len` sites.
pub fn load_states(lines: &Vec<String>, load_option: i64, expected_len: usize) -> (r: Result<
    Vec<Vec<u8>>,
    LoadError,
>)
    ensures
        r matches Ok(states) ==> Ok::<Seq<Seq<u8>>, LoadError>(rows(states@))
            == spec_load_states(texts(lines@), load_option, expected_len),
        r matches Err(e) ==> Err::<Seq<Seq<u8>>, LoadError>(e) == spec_load_states(
            texts(lines@),
            load_option,
            expected_len,
        ),
{
    let mut all_lines_data: Vec<Vec<u8>> = Vec::new();
    if load_option == 0 {
        assert(rows(all_lines_data@) =~= Seq::<Seq<u8>>::empty());
        return Ok(all_lines_data);
    }
    let check1 = load_option > 0;
    let ghost ls = texts(lines@);
    let mut i: usize = 0;
    assert(rows(all_lines_data@) =~= Seq::<Seq<u8>>::empty());
    while i < lines.len()
        invariant
            i <= lines@.len(),
            ls == texts(lines@),
            load_option != 0,
            check1 == (load_option > 0),
            spec_load_from(ls, i as int, load_option, expected_len, rows(all_lines_data@))
                == spec_load_states(ls, load_option, expected_len),
        decreases lines@.len() - i,
    {
        let ghost loaded = rows(all_lines_data@);
        assert(ls[i as int] == lines@[i as int]@);
        match parse_state_line(lines[i].as_str()) {
            None => {},
            Some(values) => {
                if check1 && (all_lines_data.len() as u64) >= (load_option as u64) {
                    return end_of_load(all_lines_data, load_option);
                }
                if values.len() != expected_len {
                    return Err(
                        LoadError::InvalidData {
                            line: i + 1,
                            expected: expected_len,
                            got: values.len(),
                        },
                    );
                }
                all_lines_data.push(values);
                assert(rows(all_lines_data@) =~= loaded.push(line_values(ls[i as int])));
            },
        }
        i += 1;
    }
    end_of_load(all_lines_data, load_option)
}

/// The outcome of loading when no more line is read.
fn end_of_load(loaded: Vec<Vec<u8>>, load_option: i64) -> (r: Result<Vec<Vec<u8>>, LoadError>)
    ensures
        r matches Ok(states) ==> Ok::<Seq<Seq<u8>>, LoadError>(rows(states@))
            == spec_load_end(load_option, rows(loaded@)),
        r matches Err(e) ==> Err::<Seq<Seq<u8>>, LoadError>(e) == spec_load_end(
            load_option,
            rows(loaded@),
        ),
{
    if load_option > 0 && (loaded.len() as u64) < (load_option as u64) {
        Err(LoadError::NotFound { wanted: load_option, found: loaded.len() })
    } else {
        Ok(loaded)
    }
}

/// The line of a snapshot: every site as the digit of its phase, `:`
/// between the sites, and a line feed at the end.
pub open spec fn spec_state_line(state: Seq<u8>) -> Seq<u8> {
    if state.len() == 0 {
        seq![10u8]
    } else {
        Seq::new(
            2 * state.len(),
            |i: int|
                if i % 2 == 0 {
                    (state[i / 2] + 48) as u8
                } else if i == 2 * state.len() - 1 {
                    10u8
                } else {
                    58u8
                },
        )
    }
}

/// Renders the line of a snapshot.
pub fn write_state(state: &[u8]) -> (line: Vec<u8>)
    requires
        forall|i: int| 0 <= i < state@.len() ==> state@[i] <= 207,
        2 * state@.len() <= usize::MAX,
    ensures
        line@ == spec_state_line(state@),
{
    let len = state.len();
    let mut buffer: Vec<u8> = Vec::new();
    if len == 0 {
        buffer.push(10);
        assert(buffer@ =~= spec_state_line(state@));
        return buffer;
    }
    let mut i: usize = 0;
    while i < len
        invariant
            i <= len,
            len == state@.len(),
            len > 0,
            forall|j: int| 0 <= j < state@.len() ==> state@[j] <= 207,
            buffer@.len() == 2 * i,
            forall|j: int| 0 <= j < 2 * i ==> buffer@[j] == spec_state_line(state@)[j] || (j == 2
                * i - 1 && buffer@[j] == 58),
            i > 0 ==> buffer@[2 * i - 1] == 58,
        decreases len - i,
    {
        buffer.push(state[i] + 48);
        buffer.push(58);
        i += 1;
    }
    buffer.pop();
    buffer.push(10);
    assert(buffer@ =~= spec_state_line(state@));
    buffer
}

/// The fields joined by `:` with a line feed at the end.
pub open spec fn spec_joined(fields: Seq<Seq<u8>>) -> Seq<u8>
    decreases fields.len(),
{
    if fields.len() == 0 {
        seq![10u8]
    } else if fields.len() == 1 {
        fields[0].push(10u8)
    } else {
        fields[0].push(58u8) + spec_joined(fields.drop_first())
    }
}

/// Renders one row of a history: the fields, already in their text form,
/// joined by `:`, with a line feed at the end.
pub fn write_state_uni(fields: &Vec<Vec<u8>>) -> (line: Vec<u8>)
    ensures
        line@ == spec_joined(rows(fields@)),
{
    let ghost fs = rows(fields@);
    let mut line: Vec<u8> = Vec::new();
    let n = fields.len();
    if n == 0 {
        line.push(10);
        assert(line@ =~= spec_joined(fs));
        return line;
    }
    let mut k: usize = 0;
    assert(fs.skip(0) =~= fs);
    assert(line@ + spec_joined(fs) =~= spec_joined(fs));
    while k < n
        invariant
            k <= n,
            n == fields@.len(),
            n > 0,
            fs == rows(fields@),
            k < n ==> line@ + spec_joined(fs.skip(k as int)) == spec_joined(fs),
            k == n ==> line@ == spec_joined(fs),
        decreases n - k,
    {
        let ghost before = line@;
        let ghost rest = fs.skip(k as int);
        let field = &fields[k];
        assert(rest[0] == field@);
        assert(rest.drop_first() =~= fs.skip(k + 1));
        let mut j: usize = 0;
        while j < field.len()
            invariant
                j <= field@.len(),
                line@ == before + field@.take(j as int),
            decreases field@.len() - j,
        {
            line.push(field[j]);
            assert(field@.take(j + 1) =~= field@.take(j as int).push(field@[j as int]));
            j += 1;
        }
        assert(field@.take(field@.len() as int) =~= field@);
        if k + 1 < n {
            line.push(58);
            assert(line@ + spec_joined(fs.skip(k + 1)) =~= before + spec_joined(rest));
        } else {
            line.push(10);
            assert(rest.len() == 1);
            assert(line@ =~= before + spec_joined(rest));
        }
        k += 1;
    }
    line
}

/// The decimal digits of `n`, without leading zeros.
pub open spec fn spec_decimal(n: nat) -> Seq<u8>
    decreases n,
{
    if n < 10 {
        seq![(48 + n) as u8]
    } else {
        spec_decimal(n / 10).push((48 + n % 10) as u8)
    }
}

/// Appends the decimal digits of `v` to `out`.
fn push_decimal(out: &mut Vec<u8>, v: u64)
    ensures
        final(out)@ == old(out)@ + spec_decimal(v as nat),
    decreases v,
{
    if v >= 10 {
        push_decimal(out, v / 10);
    }
    let ghost before = out@;
    out.push(48 + (v % 10) as u8);
    proof {
        if v >= 10 {
            assert(out@ =~= old(out)@ + spec_decimal(v as nat / 10).push((48 + v % 10) as u8));
        } else {
            assert(out@ =~= old(out)@ + seq![(48 + v) as u8]);
        }
    }
}

/// The decimal digits of `v`.
pub fn format_u64(v: u64) -> (digits: Vec<u8>)
    ensures
        digits@ == spec_decimal(v as nat),
{
    let mut digits: Vec<u8> = Vec::new();
    push_decimal(&mut digits, v);
    assert(digits@ =~= spec_decimal(v as nat));
    digits
}

/// The decimal digits of every value.
pub open spec fn decimals(values: Seq<u64>) -> Seq<Seq<u8>> {
    Seq::new(values.len(), |i: int| spec_decimal(values[i] as nat))
}

/// Renders one row of a history of whole numbers: the values in decimal
/// digits, joined by `:`, with a line feed at the end.
pub fn write_log_row(values: &Vec<u64>) -> (line: Vec<u8>)
    ensures
        line@ == spec_joined(decimals(values@)),
{
    let mut fields: Vec<Vec<u8>> = Vec::new();
    let mut i: usize = 0;
    while i < values.len()
        invariant
            i <= values@.len(),
            fields@.len() == i,
            forall|j: int| 0 <= j < i ==> (#[trigger] fields@[j])@ == spec_decimal(values@[j] as nat),
        decreases values@.len() - i,
    {
        fields.push(format_u64(values[i]));
        i += 1;
    }
    assert(rows(fields@) =~= decimals(values@));
    write_state_uni(&fields)
}

} // verus!
