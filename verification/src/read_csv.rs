//! Delimited text into a flat table of fields.
//!
//! Splitting the text into records and fields is the `csv` crate's work. What is done
//! with its records is decided here: they are laid out one after the other, and the
//! width of the table is taken from the first record that has fields. Turning a field
//! into a number is left to the caller.

use vstd::prelude::*;

verus! {

/// The error of the `csv` crate. Nothing inside it is visible here.
#[verifier::external_type_specification]
#[verifier::external_body]
pub struct ExCsvError(csv::Error);

/// Why a text could not be read as a table.
#[derive(Debug)]
pub enum ReadCsvError {
    /// The text is no well-formed delimited data; the cause says where and why.
    Malformed(csv::Error),
}

/// The records that the `csv` crate reads from `content` with fields separated by
/// `delim`, no header line, and all records held to one length: each record as the
/// characters of its fields. There are none where it reports an error.
pub uninterp spec fn csv_records(content: Seq<char>, delim: u8) -> Option<Seq<Seq<Seq<char>>>>;

/// The characters of each field.
pub open spec fn field_texts(fields: Seq<String>) -> Seq<Seq<char>> {
    fields.map_values(|s: String| s@)
}

/// The characters of each field of each record.
pub open spec fn record_texts(records: Seq<Vec<String>>) -> Seq<Seq<Seq<char>>> {
    records.map_values(|r: Vec<String>| field_texts(r@))
}

/// Whether all records have as many fields as the first.
pub open spec fn uniform<A>(records: Seq<Seq<A>>) -> bool {
    forall|i: int| 0 <= i < records.len() ==> (#[trigger] records[i]).len() == records[0].len()
}

/// Reads every record of `content` with `csv::Reader::records`, from a reader built by
/// `csv::ReaderBuilder` with the delimiter `delim`, without headers and otherwise as the
/// builder comes. The outcome is named [`csv_records`]. Such a reader is not flexible, so
/// the records it gives without an error all have the length of the first.
#[verifier::external_body]
fn parse_records(content: &str, delim: u8) -> (r: Result<Vec<Vec<String>>, csv::Error>)
    ensures
        match r {
            Ok(records) => csv_records(content@, delim) == Some(record_texts(records@)) && uniform(
                record_texts(records@),
            ),
            Err(_) => csv_records(content@, delim) is None,
        },
{
    let mut reader = csv::ReaderBuilder::new().delimiter(delim).has_headers(false).from_reader(
        content.as_bytes(),
    );
    let mut records = Vec::new();
    for record in reader.records() {
        match record {
            Ok(fields) => records.push(fields.iter().map(String::from).collect()),
            Err(e) => return Err(e),
        }
    }
    Ok(records)
}

/// The width of a table made of the first `n` records: the number of fields of the first
/// of them that has any, or zero if none has.
pub open spec fn table_width<A>(records: Seq<Seq<A>>, n: nat) -> nat
    decreases n,
{
    if n == 0 {
        0
    } else {
        let before = table_width(records, (n - 1) as nat);
        if before != 0 {
            before
        } else {
            records[n - 1].len()
        }
    }
}

/// A table of records of one length is as wide as each of them, and holds that many
/// fields for every record.
pub proof fn lemma_uniform_table<A>(records: Seq<Seq<A>>, n: nat)
    requires
        uniform(records),
        n <= records.len(),
    ensures
        table_width(records, n) == if n == 0 {
            0
        } else {
            records[0].len()
        },
        records.take(n as int).flatten().len() == n * records[0].len(),
    decreases n,
{
    if n == 0 {
        assert(records.take(0) =~= Seq::<Seq<A>>::empty());
        assert(Seq::<Seq<A>>::empty().flatten() =~= Seq::<A>::empty()) by {
            reveal_with_fuel(Seq::flatten, 1);
        }
        assert(0 * records[0].len() == 0) by (nonlinear_arith);
    } else {
        let m = (n - 1) as nat;
        lemma_uniform_table(records, m);
        assert(records.take(n as int) =~= records.take(m as int).push(records[m as int]));
        records.take(m as int).lemma_flatten_push(records[m as int]);
        let w = records[0].len();
        assert(m * w + w == n * w) by (nonlinear_arith)
            requires
                n == m + 1,
        ;
    }
}

/// Lays the records out one after the other, and finds the width of the table.
pub fn flatten_records(records: &Vec<Vec<String>>) -> (r: (Vec<String>, usize))
    ensures
        field_texts(r.0@) == record_texts(records@).flatten(),
        r.1 == table_width(record_texts(records@), records@.len()),
{
    let ghost texts = record_texts(records@);
    let mut shape: usize = 0;
    let mut data: Vec<String> = Vec::new();
    let mut i: usize = 0;
    proof {
        assert(texts.take(0) =~= Seq::<Seq<Seq<char>>>::empty());
        assert(Seq::<Seq<Seq<char>>>::empty().flatten() =~= Seq::<Seq<char>>::empty()) by {
            reveal_with_fuel(Seq::flatten, 1);
        }
        assert(field_texts(data@) =~= Seq::<Seq<char>>::empty());
    }
    while i < records.len()
        invariant
            i <= records@.len(),
            texts == record_texts(records@),
            texts.len() == records@.len(),
            field_texts(data@) == texts.take(i as int).flatten(),
            shape == table_width(texts, i as nat),
        decreases records.len() - i,
    {
        let record = &records[i];
        assert(texts[i as int] == field_texts(record@));
        if shape == 0 {
            shape = record.len();
        }
        let ghost before = field_texts(data@);
        let mut j: usize = 0;
        while j < record.len()
            invariant
                j <= record@.len(),
                field_texts(data@) == before + field_texts(record@).take(j as int),
            decreases record.len() - j,
        {
            let field = record[j].clone();
            proof {
                assert(field_texts(data@.push(field)) =~= field_texts(data@).push(field@));
                assert(field_texts(record@).take(j + 1) =~= field_texts(record@).take(
                    j as int,
                ).push(field@));
            }
            data.push(field);
            j = j + 1;
        }
        proof {
            assert(field_texts(record@).take(j as int) =~= field_texts(record@));
            assert(texts.take(i + 1) =~= texts.take(i as int).push(texts[i as int]));
            texts.take(i as int).lemma_flatten_push(texts[i as int]);
        }
        i = i + 1;
    }
    proof {
        assert(texts.take(i as int) =~= texts);
    }
    (data, shape)
}

/// Reads delimited text into a flat table: every field of every record, one record after
/// the other, and the number of fields to a record.
///
/// Succeeds exactly where the `csv` crate reads the text without an error. The table
/// then holds whole records only.
pub fn read_csv_data(content: &str, delim: u8) -> (r: Result<(Vec<String>, usize), ReadCsvError>)
    ensures
        r is Ok <==> csv_records(content@, delim) is Some,
        r matches Ok(table) ==> {
            let records = csv_records(content@, delim)->0;
            &&& field_texts(table.0@) == records.flatten()
            &&& table.1 == table_width(records, records.len())
            &&& table.0@.len() == records.len() * table.1
            &&& forall|i: int| 0 <= i < records.len() ==> (#[trigger] records[i]).len() == table.1
        },
{
    match parse_records(content, delim) {
        Ok(records) => {
            let table = flatten_records(&records);
            proof {
                let texts = record_texts(records@);
                lemma_uniform_table(texts, texts.len());
                assert(texts.take(texts.len() as int) =~= texts);
                assert(field_texts(table.0@).len() == table.0@.len());
                if texts.len() == 0 {
                    assert(texts.len() * table.1 == 0) by (nonlinear_arith)
                        requires
                            texts.len() == 0,
                    ;
                }
            }
            Ok(table)
        },
        Err(e) => Err(ReadCsvError::Malformed(e)),
    }
}

} // verus!
