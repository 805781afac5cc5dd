//! The participant loader: parsing of the comma-separated participant file.
//!
//! The file is lines separated by `'\n'`, each with an optional trailing
//! `'\r'`. The first line is the header and must name the two columns `name`
//! and `email`, in either order. Every following line is one record of two
//! comma-separated fields. A final empty line, left by a trailing line
//! break, is ignored. An empty file yields no participants.

use vstd::prelude::*;

use crate::participant::{string_views, views_of, Participant, ParticipantView};

verus! {

/// Split a character sequence at every occurrence of `sep`: one piece per
/// separator plus one, the separators themselves dropped.
pub open spec fn split_on(s: Seq<char>, sep: char) -> Seq<Seq<char>>
    decreases s.len(),
{
    if s.len() == 0 {
        seq![Seq::<char>::empty()]
    } else if s[0] == sep {
        seq![Seq::<char>::empty()] + split_on(s.skip(1), sep)
    } else {
        let rest = split_on(s.skip(1), sep);
        seq![seq![s[0]] + rest[0]] + rest.skip(1)
    }
}

/// Splitting yields at least one piece.
pub proof fn lemma_split_on_nonempty(s: Seq<char>, sep: char)
    ensures
        split_on(s, sep).len() >= 1,
    decreases s.len(),
{
    if s.len() != 0 {
        lemma_split_on_nonempty(s.skip(1), sep);
    }
}

/// A sequence without the separator splits into itself alone.
pub proof fn lemma_split_on_no_sep(s: Seq<char>, sep: char)
    requires
        forall|j: int| 0 <= j < s.len() ==> s[j] != sep,
    ensures
        split_on(s, sep) == seq![s],
    decreases s.len(),
{
    if s.len() == 0 {
        assert(s =~= Seq::<char>::empty());
        assert(split_on(s, sep) =~= seq![s]);
    } else {
        lemma_split_on_no_sep(s.skip(1), sep);
        let rest = split_on(s.skip(1), sep);
        assert(rest == seq![s.skip(1)]);
        assert(seq![s[0]] + s.skip(1) =~= s);
        assert(rest.skip(1) =~= Seq::<Seq<char>>::empty());
        assert(split_on(s, sep) =~= seq![s]);
    }
}

/// Splitting at the first separator: the piece before it, then the split of
/// what follows it.
pub proof fn lemma_split_on_first_sep(s: Seq<char>, sep: char, k: int)
    requires
        0 <= k < s.len(),
        s[k] == sep,
        forall|j: int| 0 <= j < k ==> s[j] != sep,
    ensures
        split_on(s, sep) == seq![s.take(k)] + split_on(s.skip(k + 1), sep),
    decreases k,
{
    if k == 0 {
        assert(s.take(0) =~= Seq::<char>::empty());
        assert(split_on(s, sep) =~= seq![s.take(0)] + split_on(s.skip(1), sep));
    } else {
        let t = s.skip(1);
        assert(t[k - 1] == sep);
        lemma_split_on_first_sep(t, sep, k - 1);
        let rest = split_on(t, sep);
        assert(rest == seq![t.take(k - 1)] + split_on(t.skip(k), sep));
        lemma_split_on_nonempty(t.skip(k), sep);
        assert(rest[0] == t.take(k - 1));
        assert(seq![s[0]] + t.take(k - 1) =~= s.take(k));
        assert(rest.skip(1) =~= split_on(t.skip(k), sep));
        assert(t.skip(k) =~= s.skip(k + 1));
        assert(split_on(s, sep) =~= seq![s.take(k)] + split_on(s.skip(k + 1), sep));
    }
}

/// Split a string at every occurrence of `sep`.
pub fn split_str(s: &str, sep: char) -> (r: Vec<String>)
    ensures
        string_views(r@) == split_on(s@, sep),
{
    let len = s.unicode_len();
    let mut r: Vec<String> = Vec::new();
    let mut start: usize = 0;
    proof {
        assert(s@.skip(0) =~= s@);
        assert(string_views(r@) + split_on(s@, sep) =~= split_on(s@, sep));
    }
    for i in 0..len
        invariant
            start <= i <= len,
            len == s@.len(),
            string_views(r@) + split_on(s@.skip(start as int), sep) =~= split_on(s@, sep),
            forall|j: int| start <= j < i ==> s@[j] != sep,
    {
        if s.get_char(i) == sep {
            let ghost prev = r@;
            let piece = s.substring_char(start, i).to_owned();
            r.push(piece);
            proof {
                let tail = s@.skip(start as int);
                assert(tail[i - start] == sep);
                lemma_split_on_first_sep(tail, sep, i - start);
                assert(tail.take(i - start) =~= s@.subrange(start as int, i as int));
                assert(tail.skip(i - start + 1) =~= s@.skip(i + 1));
                assert(string_views(r@) =~= string_views(prev) + seq![
                    s@.subrange(start as int, i as int),
                ]);
                assert(string_views(r@) + split_on(s@.skip(i + 1), sep) =~= string_views(prev)
                    + split_on(tail, sep));
            }
            start = i + 1;
        }
    }
    let ghost prev = r@;
    let last = s.substring_char(start, len).to_owned();
    r.push(last);
    proof {
        let tail = s@.skip(start as int);
        lemma_split_on_no_sep(tail, sep);
        assert(s@.subrange(start as int, len as int) =~= tail);
        assert(string_views(r@) =~= string_views(prev) + seq![tail]);
        assert(string_views(r@) =~= split_on(s@, sep));
    }
    r
}

/// A line with a trailing carriage return loses it; any other line stays.
pub open spec fn strip_cr(l: Seq<char>) -> Seq<char> {
    if l.len() > 0 && l.last() == '\r' {
        l.drop_last()
    } else {
        l
    }
}

/// The rows of the file: its lines, each with a trailing carriage return
/// dropped, and without the final empty line a trailing line break leaves.
pub open spec fn spec_rows(text: Seq<char>) -> Seq<Seq<char>> {
    let ls = Seq::new(split_on(text, '\n').len(), |i: int| strip_cr(split_on(text, '\n')[i]));
    if ls.last().len() == 0 {
        ls.drop_last()
    } else {
        ls
    }
}

/// The rows of the file.
pub fn rows_of(text: &str) -> (rows: Vec<String>)
    ensures
        string_views(rows@) == spec_rows(text@),
{
    let lines = split_str(text, '\n');
    let n = lines.len();
    let mut rows: Vec<String> = Vec::new();
    for i in 0..n
        invariant
            n == lines@.len(),
            string_views(lines@) == split_on(text@, '\n'),
            rows@.len() == i,
            forall|k: int|
                0 <= k < i ==> string_views(rows@)[k] == strip_cr(split_on(text@, '\n')[k]),
    {
        let l = lines[i].as_str();
        let ll = l.unicode_len();
        let row = if ll > 0 && l.get_char(ll - 1) == '\r' {
            let stripped = l.substring_char(0, ll - 1).to_owned();
            proof {
                assert(stripped@ =~= lines@[i as int]@.drop_last());
            }
            stripped
        } else {
            lines[i].clone()
        };
        proof {
            assert(row@ == strip_cr(split_on(text@, '\n')[i as int]));
        }
        let ghost prev = rows@;
        let ghost rv = row@;
        rows.push(row);
        proof {
            assert forall|k: int| 0 <= k < i + 1 implies string_views(rows@)[k] == strip_cr(
                split_on(text@, '\n')[k],
            ) by {
                if k < i {
                    assert(string_views(prev)[k] == strip_cr(split_on(text@, '\n')[k]));
                } else {
                    assert(string_views(rows@)[k] == rv);
                }
            }
        }
    }
    proof {
        lemma_split_on_nonempty(text@, '\n');
    }
    let ghost full = rows@;
    let ghost ls = Seq::new(split_on(text@, '\n').len(), |i: int| strip_cr(split_on(text@, '\n')[i]));
    proof {
        assert(string_views(full) =~= ls);
    }
    let last_is_empty = rows[rows.len() - 1].as_str().is_empty();
    if last_is_empty {
        rows.pop();
        proof {
            assert(rows@ =~= full.drop_last());
            assert forall|k: int| 0 <= k < rows@.len() implies string_views(rows@)[k]
                == ls.drop_last()[k] by {
                assert(string_views(full)[k] == ls[k]);
            }
            assert(string_views(rows@) =~= ls.drop_last());
        }
    }
    rows
}

/// Whether two header fields are the column names `name` and `email`:
/// `Some(true)` when `name` comes first, `Some(false)` when `email` does,
/// `None` for any other header.
pub open spec fn spec_header_name_first(fields: Seq<Seq<char>>) -> Option<bool> {
    if fields.len() == 2 && fields[0] == "name"@ && fields[1] == "email"@ {
        Some(true)
    } else if fields.len() == 2 && fields[0] == "email"@ && fields[1] == "name"@ {
        Some(false)
    } else {
        None
    }
}

/// Check the header fields for the two column names.
fn header_name_first(fields: &Vec<String>) -> (r: Option<bool>)
    ensures
        r == spec_header_name_first(string_views(fields@)),
{
    if fields.len() != 2 {
        return None;
    }
    let name_col = String::from_str("name");
    let email_col = String::from_str("email");
    if fields[0] == name_col && fields[1] == email_col {
        Some(true)
    } else if fields[0] == email_col && fields[1] == name_col {
        Some(false)
    } else {
        None
    }
}

/// The participant a record's two fields describe, under the given column
/// order.
pub open spec fn spec_record(fields: Seq<Seq<char>>, name_first: bool) -> ParticipantView {
    if name_first {
        ParticipantView { name: fields[0], email: fields[1] }
    } else {
        ParticipantView { name: fields[1], email: fields[0] }
    }
}

/// Why the participant file was rejected.
#[derive(Clone, Copy, Debug, PartialEq, Eq, Structural)]
pub enum LoadError {
    /// The header row does not name the columns `name` and `email`.
    InvalidHeader,
    /// A record row does not hold exactly two fields.
    InvalidRow,
}

/// What parsing the file comes to: the participants in row order, or the
/// first reason the file is rejected. An empty file has no rows and no
/// participants; a file with rows must open with a valid header.
pub open spec fn spec_parse(text: Seq<char>) -> Result<Seq<ParticipantView>, LoadError> {
    let rows = spec_rows(text);
    if rows.len() == 0 {
        Ok(Seq::empty())
    } else {
        match spec_header_name_first(split_on(rows[0], ',')) {
            Option::None => Err(LoadError::InvalidHeader),
            Option::Some(name_first) => {
                if exists|i: int|
                    1 <= i < rows.len() && (#[trigger] split_on(rows[i], ',')).len() != 2 {
                    Err(LoadError::InvalidRow)
                } else {
                    Ok(
                        Seq::new(
                            (rows.len() - 1) as nat,
                            |k: int| spec_record(split_on(rows[k + 1], ','), name_first),
                        ),
                    )
                }
            },
        }
    }
}

/// Parse the participant file: a header row naming the `name` and `email`
/// columns, then one record row per participant.
pub fn parse_participants(text: &str) -> (r: Result<Vec<Participant>, LoadError>)
    ensures
        match r {
            Ok(ps) => spec_parse(text@) == Ok::<Seq<ParticipantView>, LoadError>(views_of(ps@)),
            Err(e) => spec_parse(text@) == Err::<Seq<ParticipantView>, LoadError>(e),
        },
{
    let rows = rows_of(text);
    let n = rows.len();
    if n == 0 {
        let ps: Vec<Participant> = Vec::new();
        proof {
            assert(views_of(ps@) =~= Seq::<ParticipantView>::empty());
        }
        return Ok(ps);
    }
    let hdr = split_str(rows[0].as_str(), ',');
    let name_first = match header_name_first(&hdr) {
        Some(b) => b,
        None => {
            return Err(LoadError::InvalidHeader);
        },
    };
    let mut ps: Vec<Participant> = Vec::new();
    for i in 1..n
        invariant
            1 <= i <= n,
            n == rows@.len(),
            string_views(rows@) == spec_rows(text@),
            spec_header_name_first(split_on(string_views(rows@)[0], ',')) == Some(name_first),
            ps@.len() == i - 1,
            forall|k: int|
                1 <= k < i ==> (#[trigger] split_on(string_views(rows@)[k], ',')).len() == 2,
            forall|k: int|
                1 <= k < i ==> ps@[k - 1]@ == spec_record(
                    split_on(string_views(rows@)[k], ','),
                    name_first,
                ),
    {
        let fields = split_str(rows[i].as_str(), ',');
        if fields.len() != 2 {
            proof {
                assert(split_on(string_views(rows@)[i as int], ',').len() != 2);
            }
            return Err(LoadError::InvalidRow);
        }
        let p = if name_first {
            Participant { name: fields[0].clone(), email: fields[1].clone() }
        } else {
            Participant { name: fields[1].clone(), email: fields[0].clone() }
        };
        proof {
            assert(p@ == spec_record(split_on(string_views(rows@)[i as int], ','), name_first));
        }
        ps.push(p);
    }
    proof {
        let rv = spec_rows(text@);
        let expected = Seq::new(
            (rv.len() - 1) as nat,
            |k: int| spec_record(split_on(rv[k + 1], ','), name_first),
        );
        assert forall|k: int| 0 <= k < expected.len() implies views_of(ps@)[k] == expected[k] by {
            assert(ps@[k]@ == spec_record(split_on(string_views(rows@)[k + 1], ','), name_first));
        }
        assert(views_of(ps@) =~= expected);
    }
    Ok(ps)
}

} // verus!
