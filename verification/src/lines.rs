//! The line-streaming processor: one newline-delimited record at a time,
//! pushed to a caller-supplied sink.

use vstd::prelude::*;
use vstd::string::StrSliceExecFns;
use crate::flatten::{flat_spec, flatten_json};
use crate::options::FlattenOptions;
use crate::parse::{json_parse, parse_json};
use crate::record::FlatRecord;

verus! {

/// A consumer of flattened records, supplied by the caller of the
/// line-streaming processor and called once per record, in line order.
pub trait RecordSink {
    /// The records this sink has taken so far, oldest first.
    spec fn taken(&self) -> Seq<Map<Seq<char>, Seq<char>>>;

    /// Takes one flattened record; it is assumed never to fail.
    fn handle(&mut self, record: FlatRecord)
        ensures
            final(self).taken() == old(self).taken().push(record@),
    ;
}

/// A sink that keeps every record it is handed, in the order received.
pub struct RecordingSink {
    /// The records received so far, oldest first.
    pub records: Vec<FlatRecord>,
}

impl RecordingSink {
    /// A sink that has received nothing yet.
    pub fn new() -> (r: RecordingSink)
        ensures
            r.taken() == Seq::<Map<Seq<char>, Seq<char>>>::empty(),
    {
        let r = RecordingSink { records: Vec::new() };
        proof {
            assert(r.taken() =~= Seq::<Map<Seq<char>, Seq<char>>>::empty());
        }
        r
    }
}

impl RecordSink for RecordingSink {
    open spec fn taken(&self) -> Seq<Map<Seq<char>, Seq<char>>> {
        self.records@.map_values(|r: FlatRecord| r@)
    }

    fn handle(&mut self, record: FlatRecord) {
        let ghost view = record@;
        self.records.push(record);
        proof {
            assert(self.taken() =~= old(self).taken().push(view));
        }
    }
}

/// Whether a character counts as whitespace when deciding that a line is
/// blank.
pub uninterp spec fn is_space(c: char) -> bool;

/// Relies on char::is_whitespace: whether a character has the Unicode
/// whitespace property depends on the character alone.
#[verifier::external_body]
fn char_is_space(c: char) -> (r: bool)
    ensures
        r == is_space(c),
{
    c.is_whitespace()
}

/// A line is blank when every character of it is whitespace.
pub open spec fn blank(s: Seq<char>) -> bool {
    forall|i: int| 0 <= i < s.len() ==> is_space(#[trigger] s[i])
}

fn is_blank(s: &str) -> (r: bool)
    ensures
        r == blank(s@),
{
    let n = s.unicode_len();
    let mut i: usize = 0;
    while i < n
        invariant
            i <= n,
            n == s@.len(),
            forall|j: int| 0 <= j < i ==> is_space(#[trigger] s@[j]),
        decreases n - i,
    {
        if !char_is_space(s.get_char(i)) {
            return false;
        }
        i = i + 1;
    }
    true
}

/// A line that stops processing: not blank, and not one valid JSON document.
pub open spec fn line_fails(l: Seq<char>) -> bool {
    !blank(l) && json_parse(l) is Err
}

/// A line that yields a record: not blank, and one valid JSON document.
pub open spec fn line_yields(l: Seq<char>) -> bool {
    !blank(l) && json_parse(l) is Ok
}

/// The flattened records of the first `upto` lines that yield one, in line
/// order.
pub open spec fn records_of_lines(lines: Seq<String>, upto: int, opts: FlattenOptions) -> Seq<
    Map<Seq<char>, Seq<char>>,
>
    decreases upto,
{
    if upto <= 0 {
        Seq::empty()
    } else {
        let rest = records_of_lines(lines, upto - 1, opts);
        if line_yields(lines[upto - 1]@) {
            rest.push(flat_spec(json_parse(lines[upto - 1]@)->Ok_0, opts))
        } else {
            rest
        }
    }
}

/// A line that failed to parse: its 1-based position among the lines, the
/// 1-based column of the fault within it, and how many records had been
/// delivered to the sink before it was reached.
#[derive(Clone, Copy, Debug)]
pub struct LineError {
    pub line: usize,
    pub column: usize,
    pub delivered: usize,
}

/// Takes the lines one at a time: a blank line is skipped, every other line
/// is parsed as one JSON document, flattened, and handed to the sink before
/// the next line is looked at. The sink receives exactly the flattened
/// records of the yielding lines, in line order. The first bad line stops
/// everything: the returned error names it, no later line is touched, and
/// records already delivered stay delivered. On success the count of
/// delivered records comes back.
#[verifier::loop_isolation(false)]
pub fn process_lines<S: RecordSink>(
    lines: &Vec<String>,
    sink: &mut S,
    options: &FlattenOptions,
) -> (r: Result<usize, LineError>)
    ensures
        r matches Ok(n) ==> (forall|i: int|
            0 <= i < lines@.len() ==> !line_fails((#[trigger] lines@[i])@)) && n
            == records_of_lines(lines@, lines@.len() as int, *options).len() && final(sink).taken()
            == old(sink).taken() + records_of_lines(lines@, lines@.len() as int, *options),
        r matches Err(e) ==> 1 <= e.line <= lines@.len() && line_fails(lines@[e.line - 1]@) && (
        forall|i: int| 0 <= i < e.line - 1 ==> !line_fails((#[trigger] lines@[i])@))
            && e.column == json_parse(lines@[e.line - 1]@)->Err_0.1
            && e.delivered == records_of_lines(lines@, e.line - 1, *options).len()
            && final(sink).taken() == old(sink).taken() + records_of_lines(
            lines@,
            e.line - 1,
            *options,
        ),
{
    let n = lines.len();
    let mut idx: usize = 0;
    let mut delivered: usize = 0;
    proof {
        assert(sink.taken() =~= old(sink).taken() + records_of_lines(lines@, 0, *options));
    }
    while idx < n
        invariant
            idx <= n,
            delivered <= idx,
            delivered == records_of_lines(lines@, idx as int, *options).len(),
            sink.taken() == old(sink).taken() + records_of_lines(lines@, idx as int, *options),
            forall|i: int| 0 <= i < idx ==> !line_fails((#[trigger] lines@[i])@),
        decreases n - idx,
    {
        let line = &lines[idx];
        if !is_blank(line.as_str()) {
            match parse_json(line.as_str()) {
                Ok(v) => {
                    let record = flatten_json(&v, options);
                    sink.handle(record);
                    delivered = delivered + 1;
                    proof {
                        assert(sink.taken() =~= old(sink).taken() + records_of_lines(
                            lines@,
                            idx + 1,
                            *options,
                        ));
                    }
                },
                Err(e) => {
                    return Err(LineError { line: idx + 1, column: e.column, delivered });
                },
            }
        }
        idx = idx + 1;
    }
    Ok(delivered)
}

} // verus!
