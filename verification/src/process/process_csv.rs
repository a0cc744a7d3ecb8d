//! From the rows of a table to records that name each field.
use vstd::prelude::*;
use crate::cli::csv::OutputFormat;
use crate::text::push_str;

verus! {

/// The fields of `record` under the names of `header`, place by place, as far
/// as both go.
pub open spec fn named_fields(header: Seq<Seq<char>>, record: Seq<Seq<char>>) -> Seq<
    (Seq<char>, Seq<char>),
> {
    Seq::new(
        if header.len() <= record.len() {
            header.len()
        } else {
            record.len()
        },
        |i: int| (header[i], record[i]),
    )
}

/// The fields of `record` under the names of `header`.
pub fn name_fields(header: &Vec<String>, record: &Vec<String>) -> (fields: Vec<(String, String)>)
    ensures
        fields@.map_values(|f: (String, String)| (f.0@, f.1@)) == named_fields(
            header@.map_values(|s: String| s@),
            record@.map_values(|s: String| s@),
        ),
{
    let n: usize = if header.len() <= record.len() {
        header.len()
    } else {
        record.len()
    };
    let mut fields: Vec<(String, String)> = Vec::with_capacity(n);
    let mut i: usize = 0;
    while i < n
        invariant
            n <= header@.len(),
            n <= record@.len(),
            i <= n,
            fields@.len() == i,
            forall|j: int|
                0 <= j < i ==> fields@[j].0@ == header@[j]@ && fields@[j].1@ == record@[j]@,
        decreases n - i,
    {
        fields.push((header[i].clone(), record[i].clone()));
        i = i + 1;
    }
    assert(fields@.map_values(|f: (String, String)| (f.0@, f.1@)) =~= named_fields(
        header@.map_values(|s: String| s@),
        record@.map_values(|s: String| s@),
    ));
    fields
}

/// Every record of `records` with its fields under the names of `header`.
pub fn process_ckv(header: &Vec<String>, records: &Vec<Vec<String>>) -> (rows: Vec<
    Vec<(String, String)>,
>)
    ensures
        rows@.len() == records@.len(),
        forall|k: int|
            0 <= k < rows@.len() ==> (#[trigger] rows@[k])@.map_values(
                |f: (String, String)| (f.0@, f.1@),
            ) == named_fields(
                header@.map_values(|s: String| s@),
                records@[k]@.map_values(|s: String| s@),
            ),
{
    let n: usize = records.len();
    let mut rows: Vec<Vec<(String, String)>> = Vec::with_capacity(n);
    let mut k: usize = 0;
    while k < n
        invariant
            n == records@.len(),
            k <= n,
            rows@.len() == k,
            forall|j: int|
                0 <= j < k ==> (#[trigger] rows@[j])@.map_values(
                    |f: (String, String)| (f.0@, f.1@),
                ) == named_fields(
                    header@.map_values(|s: String| s@),
                    records@[j]@.map_values(|s: String| s@),
                ),
        decreases n - k,
    {
        rows.push(name_fields(header, &records[k]));
        k = k + 1;
    }
    rows
}

/// The name of the file that the records go to: `output`, a dot, and the
/// name of the format.
pub fn output_name(output: &str, format: OutputFormat) -> (name: String)
    ensures
        name@ == output@ + seq!['.'] + format.name(),
{
    proof {
        reveal_strlit(".");
    }
    let mut name: String = output.to_owned();
    push_str(&mut name, ".");
    push_str(&mut name, format.as_str());
    assert("."@ =~= seq!['.']);
    name
}

} // verus!
