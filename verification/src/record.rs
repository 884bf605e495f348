//! One observation: the values of a line, one for each column of the table.
use crate::text::{
    is_gap, is_word, joined, lemma_tokens_of_joined, lemma_tokens_are_words, texts, tokenize,
    tokens_of,
};
use vstd::prelude::*;

verus! {

/// The number of columns of the table, and of values in a record.
pub const FIELD_COUNT: usize = 44;

/// Why a line is no record.
#[derive(Debug, Clone, Copy, PartialEq, Eq, Structural)]
pub enum ParseError {
    /// The line holds no token at all, so not even the leading year.
    MissingYear,
    /// After the leading year the line holds `found` tokens, not one for
    /// each column.
    FieldCount { found: usize },
}

/// What a list of tokens holds as a record: the tokens after the leading
/// year, where there is exactly one for each column.
pub open spec fn record_of(tokens: Seq<Seq<char>>) -> Result<Seq<Seq<char>>, ParseError> {
    if tokens.len() == 0 {
        Err(ParseError::MissingYear)
    } else if tokens.len() - 1 != FIELD_COUNT {
        Err(ParseError::FieldCount { found: (tokens.len() - 1) as usize })
    } else {
        Ok(tokens.drop_first())
    }
}

/// What a line holds as a record.
pub open spec fn parse_line(line: Seq<char>) -> Result<Seq<Seq<char>>, ParseError> {
    record_of(tokens_of(line))
}

/// A line that is written as a year and one value for each column, with
/// gaps between them, is read as a record of exactly those values.
pub proof fn lemma_parse_of_written_line(year: Seq<char>, values: Seq<Seq<char>>, sep: Seq<char>)
    requires
        is_gap(sep),
        is_word(year),
        values.len() == FIELD_COUNT,
        forall|k: int| 0 <= k < values.len() ==> is_word(#[trigger] values[k]),
    ensures
        parse_line(joined(seq![year] + values, sep)) == Ok::<Seq<Seq<char>>, ParseError>(values),
{
    let words = seq![year] + values;
    assert forall|k: int| 0 <= k < words.len() implies is_word(#[trigger] words[k]) by {
        if k > 0 {
            assert(words[k] == values[k - 1]);
        }
    }
    lemma_tokens_of_joined(words, sep);
    assert(words.drop_first() =~= values);
}

/// The values of a line that is a record are words: none is empty and none
/// holds a space.
pub proof fn lemma_values_are_words(line: Seq<char>)
    requires
        parse_line(line) is Ok,
    ensures
        parse_line(line)->Ok_0.len() == FIELD_COUNT,
        forall|k: int|
            0 <= k < FIELD_COUNT ==> is_word(#[trigger] parse_line(line)->Ok_0[k]),
{
    lemma_tokens_are_words(line);
    let tokens = tokens_of(line);
    assert forall|k: int| 0 <= k < FIELD_COUNT implies is_word(
        #[trigger] parse_line(line)->Ok_0[k],
    ) by {
        assert(tokens.drop_first()[k] == tokens[k + 1]);
    }
}

/// The values of one observation, as the text that the line gave, in the
/// order of the table's columns. The first three are the day, the hour and
/// the minute, which together are the primary key.
#[derive(Debug)]
pub struct Record {
    values: Vec<String>,
}

impl View for Record {
    type V = Seq<Seq<char>>;

    closed spec fn view(&self) -> Seq<Seq<char>> {
        texts(self.values@)
    }
}

impl Record {
    #[verifier::type_invariant]
    spec fn well_formed(&self) -> bool {
        self.values.len() == FIELD_COUNT
    }

    /// Makes a record of the tokens of a line: drops the leading year and
    /// keeps the rest, if there is one token for each column.
    pub fn from_tokens(tokens: Vec<String>) -> (r: Result<Record, ParseError>)
        ensures
            match r {
                Ok(record) => record_of(texts(tokens@)) == Ok::<Seq<Seq<char>>, ParseError>(
                    record@,
                ),
                Err(e) => record_of(texts(tokens@)) == Err::<Seq<Seq<char>>, ParseError>(e),
            },
    {
        let mut tokens = tokens;
        let n: usize = tokens.len();
        if n == 0 {
            return Err(ParseError::MissingYear);
        }
        if n - 1 != FIELD_COUNT {
            return Err(ParseError::FieldCount { found: n - 1 });
        }
        let ghost before = tokens@;
        let _year = tokens.remove(0);
        assert(texts(tokens@) =~= texts(before).drop_first());
        Ok(Record { values: tokens })
    }

    /// The values, in the order of the columns.
    pub fn values(&self) -> (r: &Vec<String>)
        ensures
            r.len() == FIELD_COUNT,
            self@.len() == FIELD_COUNT,
            texts(r@) == self@,
    {
        proof {
            use_type_invariant(self);
        }
        &self.values
    }

    /// The value of column `i`, counted from 0.
    pub fn value(&self, i: usize) -> (r: &str)
        requires
            i < FIELD_COUNT,
        ensures
            self@.len() == FIELD_COUNT,
            r@ == self@[i as int],
    {
        proof {
            use_type_invariant(self);
        }
        self.values[i].as_str()
    }

    /// The day of the year: the first part of the primary key.
    pub fn day(&self) -> (r: &str)
        ensures
            self@.len() == FIELD_COUNT,
            r@ == self@[0],
    {
        self.value(0)
    }

    /// The hour of the day: the second part of the primary key.
    pub fn hour(&self) -> (r: &str)
        ensures
            self@.len() == FIELD_COUNT,
            r@ == self@[1],
    {
        self.value(1)
    }

    /// The minute of the hour: the third part of the primary key.
    pub fn minute(&self) -> (r: &str)
        ensures
            self@.len() == FIELD_COUNT,
            r@ == self@[2],
    {
        self.value(2)
    }
}

/// Reads one line as a record. The line is split on runs of whitespace; its
/// first token, the year, is dropped; the rest must be one token for each
/// column.
pub fn parse_record(line: &str) -> (r: Result<Record, ParseError>)
    ensures
        match r {
            Ok(record) => parse_line(line@) == Ok::<Seq<Seq<char>>, ParseError>(record@),
            Err(e) => parse_line(line@) == Err::<Seq<Seq<char>>, ParseError>(e),
        },
{
    Record::from_tokens(tokenize(line))
}

} // verus!
