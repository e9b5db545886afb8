//! Turning program text into words.  A program is encoded as
//! comma-separated decimal fields, one or more per line; several lines are
//! concatenated.  Reading the text from a file or a socket is a caller
//! concern; this module parses text it is handed.

use vstd::prelude::*;

use crate::cpu::word::Word;
use crate::text::{
    int_literal_val, is_int_literal, parse_i64, spec_split, spec_trim, split_char, trim_str,
};

verus! {

/// Why program text could not be turned into words.
#[derive(Debug, Clone, PartialEq, Eq)]
pub enum ProgramLoadError {
    /// The text itself could not be obtained; raised by callers that do
    /// the reading, never by the parser.
    ReadFailed { filename: Option<String>, message: String },
    /// A field of the text is not a decimal word.
    BadWord(String),
}

/// The fields of the given lines: each line is trimmed and split at
/// commas, and the lines' fields are concatenated in order.
pub open spec fn fields_of_lines(lines: Seq<Seq<char>>) -> Seq<Seq<char>>
    decreases lines.len(),
{
    if lines.len() == 0 {
        Seq::empty()
    } else {
        spec_split(spec_trim(lines[0]), ',') + fields_of_lines(lines.skip(1))
    }
}

/// The lines of program text: the pieces between line feeds, except that
/// text ending in a line feed has no final empty line, exactly as a
/// line-by-line reader sees it.
pub open spec fn logical_lines(text: Seq<char>) -> Seq<Seq<char>> {
    let pieces = spec_split(text, '\n');
    if pieces.len() > 0 && pieces.last().len() == 0 {
        pieces.drop_last()
    } else {
        pieces
    }
}

/// The decimal fields of whole program text: its lines' fields, in order.
pub open spec fn program_fields(text: Seq<char>) -> Seq<Seq<char>> {
    fields_of_lines(logical_lines(text))
}

/// A line appended to the end contributes its fields at the end.
proof fn lemma_fields_of_lines_push(lines: Seq<Seq<char>>, line: Seq<char>)
    ensures
        fields_of_lines(lines.push(line)) == fields_of_lines(lines) + spec_split(
            spec_trim(line),
            ',',
        ),
    decreases lines.len(),
{
    if lines.len() == 0 {
        assert(lines.push(line)[0] == line);
        assert(lines.push(line).skip(1) =~= Seq::<Seq<char>>::empty());
        assert(fields_of_lines(Seq::<Seq<char>>::empty()) == Seq::<Seq<char>>::empty());
        assert(fields_of_lines(lines.push(line)) =~= spec_split(spec_trim(line), ','));
        assert(fields_of_lines(lines) + spec_split(spec_trim(line), ',') =~= spec_split(
            spec_trim(line),
            ',',
        ));
    } else {
        assert(lines.push(line)[0] == lines[0]);
        assert(lines.push(line).skip(1) =~= lines.skip(1).push(line));
        lemma_fields_of_lines_push(lines.skip(1), line);
        assert(spec_split(spec_trim(lines[0]), ',') + (fields_of_lines(lines.skip(1))
            + spec_split(spec_trim(line), ',')) =~= (spec_split(spec_trim(lines[0]), ',')
            + fields_of_lines(lines.skip(1))) + spec_split(spec_trim(line), ','));
    }
}

/// Parse program text into words.
///
/// Succeeds exactly when every field of the text is a decimal integer
/// literal whose value fits in a word, and then returns one word per
/// field, in order.  Otherwise reports the first offending field.
pub fn read_program_from_reader(text: &str) -> (r: Result<Vec<Word>, ProgramLoadError>)
    ensures
        match r {
            Ok(words) => {
                let fields = program_fields(text@);
                &&& words@.len() == fields.len()
                &&& forall|i: int|
                    0 <= i < fields.len() ==> is_int_literal(#[trigger] fields[i]) && i64::MIN
                        <= int_literal_val(fields[i]) <= i64::MAX && words@[i].0 as int
                        == int_literal_val(fields[i])
            },
            Err(e) => {
                let fields = program_fields(text@);
                match e {
                    ProgramLoadError::BadWord(w) => exists|i: int|
                        {
                            &&& 0 <= i < fields.len()
                            &&& !(is_int_literal(#[trigger] fields[i]) && i64::MIN
                                <= int_literal_val(fields[i]) <= i64::MAX)
                            &&& w@ == fields[i]
                        },
                    ProgramLoadError::ReadFailed { .. } => false,
                }
            },
        },
{
    let ghost all_fields = program_fields(text@);
    let mut lines = split_char(text, '\n');
    if lines.len() > 0 && lines[lines.len() - 1].as_str().unicode_len() == 0 {
        let ghost pieces = lines@.map_values(|t: String| t@);
        lines.pop();
        proof {
            assert(lines@.map_values(|t: String| t@) =~= pieces.drop_last());
            assert(lines@.map_values(|t: String| t@) == logical_lines(text@));
        }
    } else {
        proof {
            let pieces = lines@.map_values(|t: String| t@);
            if pieces.len() > 0 {
                assert(pieces.last() == lines@[lines@.len() - 1]@);
            }
            assert(lines@.map_values(|t: String| t@) == logical_lines(text@));
        }
    }
    let ghost line_views = lines@.map_values(|t: String| t@);
    let mut words: Vec<Word> = Vec::new();
    let ghost mut done: Seq<Seq<char>> = Seq::empty();
    proof {
        assert(line_views.take(0) =~= Seq::<Seq<char>>::empty());
        assert(fields_of_lines(line_views.take(line_views.len() as int)) == fields_of_lines(
            line_views,
        )) by {
            assert(line_views.take(line_views.len() as int) =~= line_views);
        }
    }
    let mut li: usize = 0;
    while li < lines.len()
        invariant
            li <= lines.len(),
            line_views == lines@.map_values(|t: String| t@),
            all_fields == program_fields(text@),
            all_fields == fields_of_lines(line_views),
            line_views == logical_lines(text@),
            done == fields_of_lines(line_views.take(li as int)),
            done.len() <= all_fields.len(),
            done =~= all_fields.take(done.len() as int),
            words@.len() == done.len(),
            forall|i: int|
                0 <= i < done.len() ==> is_int_literal(#[trigger] all_fields[i]) && i64::MIN
                    <= int_literal_val(all_fields[i]) <= i64::MAX && words@[i].0 as int
                    == int_literal_val(all_fields[i]),
        decreases lines.len() - li,
    {
        let trimmed = trim_str(lines[li].as_str());
        let fields = split_char(trimmed.as_str(), ',');
        let ghost field_views = fields@.map_values(|t: String| t@);
        proof {
            assert(line_views[li as int] == lines@[li as int]@);
            assert(line_views.take(li as int + 1) =~= line_views.take(li as int).push(
                line_views[li as int],
            ));
            lemma_fields_of_lines_push(line_views.take(li as int), line_views[li as int]);
            assert(fields_of_lines(line_views.take(li as int + 1)) == done + field_views);
            lemma_fields_prefix(line_views, li as int + 1);
            assert(done + field_views == all_fields.take(done.len() + field_views.len() as int));
            assert forall|j: int| 0 <= j < field_views.len() implies all_fields[done.len() + j]
                == field_views[j] by {
                assert((done + field_views)[done.len() + j] == field_views[j]);
                assert(all_fields.take(done.len() + field_views.len() as int)[done.len() + j]
                    == all_fields[done.len() + j]);
            }
        }
        let mut fi: usize = 0;
        while fi < fields.len()
            invariant
                fi <= fields.len(),
                field_views == fields@.map_values(|t: String| t@),
                all_fields == program_fields(text@),
                done.len() + field_views.len() <= all_fields.len(),
                forall|j: int|
                    0 <= j < field_views.len() ==> all_fields[done.len() + j] == #[trigger]
                        field_views[j],
                words@.len() == done.len() + fi,
                forall|i: int|
                    0 <= i < words@.len() ==> is_int_literal(#[trigger] all_fields[i]) && i64::MIN
                        <= int_literal_val(all_fields[i]) <= i64::MAX && words@[i].0 as int
                        == int_literal_val(all_fields[i]),
            decreases fields.len() - fi,
        {
            proof {
                assert(field_views[fi as int] == fields@[fi as int]@);
                assert(all_fields[done.len() + fi] == field_views[fi as int]);
            }
            match parse_i64(fields[fi].as_str()) {
                Some(v) => {
                    words.push(Word(v));
                },
                None => {
                    let bad = fields[fi].clone();
                    proof {
                        let ghost w = done.len() + fi as int;
                        assert(0 <= w < all_fields.len());
                        assert(bad@ == all_fields[w]);
                        assert(!(is_int_literal(all_fields[w]) && i64::MIN <= int_literal_val(
                            all_fields[w],
                        ) <= i64::MAX));
                    }
                    return Err(ProgramLoadError::BadWord(bad));
                },
            }
            fi = fi + 1;
        }
        proof {
            done = done + field_views;
            assert(done =~= all_fields.take(done.len() as int));
        }
        li = li + 1;
    }
    proof {
        assert(done =~= all_fields);
    }
    Ok(words)
}

/// The fields of the first `k` lines are a prefix of the fields of all
/// the lines.
proof fn lemma_fields_prefix(lines: Seq<Seq<char>>, k: int)
    requires
        0 <= k <= lines.len(),
    ensures
        fields_of_lines(lines.take(k)).len() <= fields_of_lines(lines).len(),
        fields_of_lines(lines.take(k)) == fields_of_lines(lines).take(
            fields_of_lines(lines.take(k)).len() as int,
        ),
    decreases lines.len() - k,
{
    if k == lines.len() {
        assert(lines.take(k) =~= lines);
        assert(fields_of_lines(lines.take(k)) =~= fields_of_lines(lines).take(
            fields_of_lines(lines.take(k)).len() as int,
        ));
    } else {
        lemma_fields_prefix(lines, k + 1);
        assert(lines.take(k + 1) =~= lines.take(k).push(lines[k]));
        lemma_fields_of_lines_push(lines.take(k), lines[k]);
        let a = fields_of_lines(lines.take(k));
        let b = fields_of_lines(lines.take(k + 1));
        let all = fields_of_lines(lines);
        assert(b == a + spec_split(spec_trim(lines[k]), ','));
        assert(a.len() <= b.len());
        assert(b == all.take(b.len() as int));
        assert(a =~= all.take(a.len() as int));
    }
}

} // verus!
