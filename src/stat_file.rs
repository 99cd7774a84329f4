//! Reading the `name value` statistics files that cgroups expose.

use vstd::prelude::*;

use crate::backends::metric::{decoded_views, RawReading};
use crate::text::{chars_of, i64_of, lemma_split_nonempty, parse_i64, split_chars, split_on, views};

verus! {

/// The data lines of a statistics file: every piece before the last newline.
/// What follows the last newline (empty in a well-formed file) is excluded.
pub open spec fn data_lines(content: Seq<char>) -> Seq<Seq<char>> {
    split_on(content, '\n').drop_last()
}

/// The name on a data line: what precedes its first space.
pub open spec fn line_name(line: Seq<char>) -> Seq<char> {
    split_on(line, ' ')[0]
}

/// The value on a data line: its second space-separated field, read as an `i64`.
pub open spec fn line_value(line: Seq<char>) -> Option<i64> {
    let fields = split_on(line, ' ');
    if fields.len() >= 2 {
        i64_of(fields[1])
    } else {
        None
    }
}

/// The metric names of a statistics file, one per data line, in order.
pub open spec fn stat_names(content: Seq<char>) -> Seq<Seq<char>> {
    data_lines(content).map_values(|l: Seq<char>| line_name(l))
}

/// The metric values of a statistics file, one per data line, in order;
/// `None` when some data line holds no readable value.
pub open spec fn stat_values(content: Seq<char>) -> Option<Seq<i64>> {
    let lines = data_lines(content);
    if forall|i: int| 0 <= i < lines.len() ==> (#[trigger] line_value(lines[i])) is Some {
        Some(lines.map_values(|l: Seq<char>| line_value(l)->0))
    } else {
        None
    }
}

/// The data lines of `content`.
fn lines_of(content: &str) -> (r: Vec<String>)
    ensures
        views(r@) == data_lines(content@),
{
    let chars = chars_of(content);
    let mut all = split_chars(&chars, '\n');
    proof {
        lemma_split_nonempty(content@, '\n');
    }
    let ghost all_v = views(all@);
    all.pop();
    assert(views(all@) =~= all_v.drop_last());
    all
}

/// The metric names listed in a statistics file.
pub fn get_metric_names(content: &str) -> (r: Vec<String>)
    ensures
        views(r@) == stat_names(content@),
{
    let lines = lines_of(content);
    let mut res: Vec<String> = Vec::new();
    for i in 0..lines.len()
        invariant
            views(lines@) == data_lines(content@),
            views(res@) == stat_names(content@).take(i as int),
    {
        let line = chars_of(lines[i].as_str());
        let fields = split_chars(&line, ' ');
        proof {
            lemma_split_nonempty(line@, ' ');
            assert(lines@[i as int]@ == data_lines(content@)[i as int]);
        }
        let name = fields[0].clone();
        assert(views(fields@)[0] == fields@[0]@);
        assert(name@ == line_name(data_lines(content@)[i as int]));
        let ghost before = res@;
        res.push(name);
        assert(views(res@) =~= views(before).push(name@));
        assert(views(res@) =~= stat_names(content@).take(i + 1));
    }
    assert(stat_names(content@).take(lines.len() as int) =~= stat_names(content@));
    res
}

/// The metric values listed in a statistics file, or `None` when a data line
/// holds no readable value.
pub fn get_metric_values(content: &str) -> (r: Option<Vec<i64>>)
    ensures
        r is None <==> stat_values(content@) is None,
        r matches Some(v) ==> stat_values(content@) == Some(v@),
{
    let lines = lines_of(content);
    let ghost dl = data_lines(content@);
    let mut res: Vec<i64> = Vec::new();
    for i in 0..lines.len()
        invariant
            views(lines@) == dl,
            dl == data_lines(content@),
            res@.len() == i,
            forall|j: int| 0 <= j < i ==> line_value(#[trigger] dl[j]) == Some(res@[j]),
    {
        let line = chars_of(lines[i].as_str());
        let fields = split_chars(&line, ' ');
        assert(lines@[i as int]@ == dl[i as int]);
        if fields.len() < 2 {
            return None;
        }
        match parse_i64(fields[1].as_str()) {
            Some(v) => {
                res.push(v);
            },
            None => {
                return None;
            },
        }
    }
    assert(forall|j: int| 0 <= j < dl.len() ==> (#[trigger] line_value(dl[j])) is Some);
    assert(dl.map_values(|l: Seq<char>| line_value(l)->0) =~= res@);
    Some(res)
}

/// What a reading yields for a statistics-file backend: the names and the
/// values of the file, or `None` when the read failed or a value is unreadable.
pub open spec fn decode_stat(r: RawReading) -> Option<(Seq<Seq<char>>, Seq<i64>)> {
    match r {
        RawReading::Stat(c) => match stat_values(c@) {
            Some(v) => Some((stat_names(c@), v)),
            None => None,
        },
        _ => None,
    }
}

/// Decodes each reading as a statistics file.
pub fn decode_stat_readings(readings: &Vec<RawReading>) -> (r: Vec<Option<(Vec<String>, Vec<i64>)>>)
    ensures
        r.len() == readings.len(),
        decoded_views(r@) == readings@.map_values(|x: RawReading| decode_stat(x)),
{
    let mut r: Vec<Option<(Vec<String>, Vec<i64>)>> = Vec::new();
    for k in 0..readings.len()
        invariant
            r.len() == k,
            decoded_views(r@) == readings@.map_values(|x: RawReading| decode_stat(x)).take(k as int),
    {
        let ghost before = r@;
        let d = match &readings[k] {
            RawReading::Stat(c) => match get_metric_values(c.as_str()) {
                Some(v) => Some((get_metric_names(c.as_str()), v)),
                None => None,
            },
            _ => None,
        };
        r.push(d);
        assert(decoded_views(r@) =~= decoded_views(before).push(decode_stat(readings@[k as int])));
        assert(decoded_views(r@) =~= readings@.map_values(|x: RawReading| decode_stat(x)).take(k + 1));
    }
    assert(readings@.map_values(|x: RawReading| decode_stat(x)).take(readings.len() as int)
        =~= readings@.map_values(|x: RawReading| decode_stat(x)));
    r
}

} // verus!
