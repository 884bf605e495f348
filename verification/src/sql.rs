//! The statements that the store is asked to run.
use crate::record::{Record, FIELD_COUNT};
use crate::schema::{column_kind, column_kind_of, column_name, column_name_of, kind_text};
use crate::text::{chars_of, joined, texts};
use vstd::prelude::*;
use vstd::string::*;

verus! {

/// The line of a table's definition that declares column `i`.
pub open spec fn column_line(i: int) -> Seq<char> {
    "    "@ + column_name_of(i) + " "@ + kind_text(column_kind_of(i)) + ",\n"@
}

/// The lines that declare the first `n` columns, in order.
pub open spec fn column_lines(n: int) -> Seq<char>
    decreases n,
{
    if n <= 0 {
        Seq::empty()
    } else {
        column_lines(n - 1) + column_line(n - 1)
    }
}

/// The columns of the primary key, as a statement lists them.
pub open spec fn key_list() -> Seq<char> {
    column_name_of(0) + ", "@ + column_name_of(1) + ", "@ + column_name_of(2)
}

/// A character that a plain identifier may begin with: an ASCII letter or
/// an underscore.
pub open spec fn is_identifier_start(c: char) -> bool {
    let u = c as u32;
    ||| 0x41 <= u <= 0x5A
    ||| 0x61 <= u <= 0x7A
    ||| u == 0x5F
}

/// A character that a plain identifier may hold: an ASCII letter, an ASCII
/// digit or an underscore.
pub open spec fn is_identifier_part(c: char) -> bool {
    let u = c as u32;
    is_identifier_start(c) || 0x30 <= u <= 0x39
}

/// A plain identifier: not empty, made of ASCII letters, ASCII digits and
/// underscores, and not beginning with a digit.
pub open spec fn is_plain_identifier(name: Seq<char>) -> bool {
    &&& name.len() > 0
    &&& is_identifier_start(name[0])
    &&& forall|k: int| 0 <= k < name.len() ==> is_identifier_part(#[trigger] name[k])
}

/// Tests whether `name` is a plain identifier, which can stand in a
/// statement without quoting. The statements of this library take a table's
/// name as it is; a caller that does not trust a name tests it first.
pub fn is_safe_identifier(name: &str) -> (r: bool)
    ensures
        r == is_plain_identifier(name@),
{
    let v = chars_of(name);
    if v.len() == 0 {
        return false;
    }
    let first: u32 = v[0] as u32;
    if !((0x41 <= first && first <= 0x5A) || (0x61 <= first && first <= 0x7A) || first == 0x5F) {
        return false;
    }
    let mut i: usize = 1;
    while i < v.len()
        invariant
            1 <= i <= v.len(),
            v@ == name@,
            forall|k: int| 0 <= k < i ==> is_identifier_part(#[trigger] v@[k]),
        decreases v.len() - i,
    {
        let u: u32 = v[i] as u32;
        if !((0x41 <= u && u <= 0x5A) || (0x61 <= u && u <= 0x7A) || u == 0x5F || (0x30 <= u && u
            <= 0x39)) {
            return false;
        }
        i += 1;
    }
    true
}

/// The statement that creates the table `table` unless it exists.
pub open spec fn create_statement(table: Seq<char>) -> Seq<char> {
    "\nCREATE TABLE IF NOT EXISTS "@ + table + " (\n"@ + column_lines(FIELD_COUNT as int)
        + "    PRIMARY KEY ("@ + key_list() + ")\n)\n        "@
}

/// The statement that inserts `values` as one row into `table`, and does
/// nothing where a row with the same day, hour and minute exists.
pub open spec fn insert_statement(table: Seq<char>, values: Seq<Seq<char>>) -> Seq<char> {
    "INSERT INTO "@ + table + " VALUES ("@ + joined(values, ", "@) + ") ON CONFLICT ("@
        + key_list() + ") DO NOTHING"@
}

/// The line that acknowledges a record: it names the record's primary key.
pub open spec fn acknowledgement(values: Seq<Seq<char>>) -> Seq<char> {
    "Added: ["@ + values[0] + ", "@ + values[1] + ", "@ + values[2] + "]"@
}

/// Appends the columns of the primary key, as a statement lists them.
fn append_key_list(s: &mut String)
    ensures
        final(s)@ == old(s)@ + key_list(),
{
    s.append(column_name(0));
    s.append(", ");
    s.append(column_name(1));
    s.append(", ");
    s.append(column_name(2));
    assert(s@ =~= old(s)@ + key_list());
}

/// Builds the statement that creates the table `table` with its 44 columns
/// and the primary key on day, hour and minute, unless the table exists.
/// The name is put into the statement as it is.
pub fn create_table_sql(table: &str) -> (r: String)
    ensures
        r@ == create_statement(table@),
{
    let mut s = String::from_str("\nCREATE TABLE IF NOT EXISTS ");
    s.append(table);
    s.append(" (\n");
    let ghost head = s@;
    let mut i: usize = 0;
    assert(s@ =~= head + column_lines(0));
    while i < FIELD_COUNT
        invariant
            i <= FIELD_COUNT,
            s@ == head + column_lines(i as int),
        decreases FIELD_COUNT - i,
    {
        s.append("    ");
        s.append(column_name(i));
        s.append(" ");
        s.append(column_kind(i).sql_name());
        s.append(",\n");
        i += 1;
        assert(s@ =~= head + column_lines(i as int));
    }
    s.append("    PRIMARY KEY (");
    append_key_list(&mut s);
    s.append(")\n)\n        ");
    assert(s@ =~= create_statement(table@));
    s
}

/// Builds the statement that inserts `record` into `table`. The values
/// stand in it in the order of the columns, as the line gave them.
pub fn insert_sql(table: &str, record: &Record) -> (r: String)
    ensures
        r@ == insert_statement(table@, record@),
{
    let mut s = String::from_str("INSERT INTO ");
    s.append(table);
    s.append(" VALUES (");
    let ghost head = s@;
    let values = record.values();
    let mut i: usize = 0;
    proof {
        assert(record@.take(0) =~= Seq::<Seq<char>>::empty());
        assert(s@ =~= head + joined(record@.take(0), ", "@));
    }
    while i < FIELD_COUNT
        invariant
            i <= FIELD_COUNT,
            record@.len() == FIELD_COUNT,
            values.len() == FIELD_COUNT,
            texts(values@) == record@,
            s@ == head + joined(record@.take(i as int), ", "@),
        decreases FIELD_COUNT - i,
    {
        let ghost before = s@;
        if i > 0 {
            s.append(", ");
        }
        s.append(values[i].as_str());
        proof {
            let now = record@.take(i + 1);
            assert(now.drop_last() =~= record@.take(i as int));
            assert(now.last() == record@[i as int]);
            assert(s@ =~= head + joined(now, ", "@));
        }
        i += 1;
    }
    assert(record@.take(FIELD_COUNT as int) =~= record@);
    s.append(") ON CONFLICT (");
    append_key_list(&mut s);
    s.append(") DO NOTHING");
    assert(s@ =~= insert_statement(table@, record@));
    s
}

/// Builds the line that acknowledges `record`.
pub fn ack_message(record: &Record) -> (r: String)
    ensures
        r@ == acknowledgement(record@),
{
    let mut s = String::from_str("Added: [");
    s.append(record.day());
    s.append(", ");
    s.append(record.hour());
    s.append(", ");
    s.append(record.minute());
    s.append("]");
    s
}

} // verus!
