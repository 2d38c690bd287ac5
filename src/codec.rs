use vstd::prelude::*;

use crate::error::StoreError;
use crate::secret::{
    first_colon, kind_tag, parse_secret, secret_text, Secret, SecretTypeMessage, SecretView,
};

verus! {

/// A credential as the store keeps it: username, secret, description.
pub type Record = (String, Secret, String);

/// A credential's username, secret and description as plain values.
pub type RecordView = (Seq<char>, SecretView, Seq<char>);

pub open spec fn record_view(r: Record) -> RecordView {
    (r.0@, r.1@, r.2@)
}

pub open spec fn records_view(rs: Seq<Record>) -> Seq<RecordView> {
    rs.map_values(|r: Record| record_view(r))
}

pub open spec fn strings_view(v: Seq<String>) -> Seq<Seq<char>> {
    v.map_values(|x: String| x@)
}

/// The pieces of `s` between occurrences of `d`; always at least one piece.
pub open spec fn split(s: Seq<char>, d: char) -> Seq<Seq<char>>
    decreases s.len(),
{
    if s.len() == 0 {
        seq![Seq::empty()]
    } else {
        let p = split(s.drop_last(), d);
        if s.last() == d {
            p.push(Seq::empty())
        } else {
            p.update(p.len() - 1, p.last().push(s.last()))
        }
    }
}

/// One stored line: `username,kind:value,description`.
pub open spec fn record_line(r: RecordView) -> Seq<char> {
    r.0 + seq![','] + secret_text(r.1) + seq![','] + r.2
}

/// The stored text of a list of credentials: one line each, joined by `\n`.
pub open spec fn records_text(rs: Seq<RecordView>) -> Seq<char>
    decreases rs.len(),
{
    if rs.len() == 0 {
        Seq::empty()
    } else if rs.len() == 1 {
        record_line(rs[0])
    } else {
        records_text(rs.drop_last()) + seq!['\n'] + record_line(rs.last())
    }
}

/// The credential one non-empty line describes: the first field is the
/// username, the second the secret, the third, if any, the description.
pub open spec fn parse_line(line: Seq<char>) -> Option<RecordView> {
    let f = split(line, ',');
    if f.len() < 2 {
        None
    } else {
        match parse_secret(f[1]) {
            None => None,
            Some(sec) => Some((f[0], sec, if f.len() > 2 { f[2] } else { Seq::empty() })),
        }
    }
}

/// The credentials of a list of lines, empty lines skipped; `None` where a
/// line describes none.
pub open spec fn parse_lines(ls: Seq<Seq<char>>) -> Option<Seq<RecordView>>
    decreases ls.len(),
{
    if ls.len() == 0 {
        Some(Seq::empty())
    } else {
        match parse_lines(ls.drop_last()) {
            None => None,
            Some(rs) => if ls.last().len() == 0 {
                Some(rs)
            } else {
                match parse_line(ls.last()) {
                    None => None,
                    Some(r) => Some(rs.push(r)),
                }
            },
        }
    }
}

/// The credentials of a stored text.
pub open spec fn parse_text(t: Seq<char>) -> Option<Seq<RecordView>> {
    parse_lines(split(t, '\n'))
}

proof fn lemma_split_nonempty(s: Seq<char>, d: char)
    ensures
        split(s, d).len() >= 1,
    decreases s.len(),
{
    if s.len() > 0 {
        lemma_split_nonempty(s.drop_last(), d);
    }
}

proof fn lemma_parse_lines_none(ls: Seq<Seq<char>>, i: int)
    requires
        0 <= i <= ls.len(),
        parse_lines(ls.subrange(0, i)) is None,
    ensures
        parse_lines(ls) is None,
    decreases ls.len() - i,
{
    if i < ls.len() {
        assert(ls.subrange(0, i + 1).drop_last() =~= ls.subrange(0, i));
        lemma_parse_lines_none(ls, i + 1);
    } else {
        assert(ls.subrange(0, i) =~= ls);
    }
}

/// Whether `s` holds none of the characters that the stored text uses as
/// delimiters: `,`, `:` and `\n`.
pub open spec fn free_of_delimiters(s: Seq<char>) -> bool {
    forall|i: int| 0 <= i < s.len() ==> s[i] != ',' && s[i] != ':' && s[i] != '\n'
}

/// Whether no field of the credential holds a delimiter.
pub open spec fn plain_record(r: RecordView) -> bool {
    free_of_delimiters(r.0) && free_of_delimiters(r.1.1) && free_of_delimiters(r.2)
}

/// Whether `c` is one of the control characters U+0001 to U+000F, whose
/// UTF-8 byte could read as a padding count.
pub open spec fn is_ctrl(c: char) -> bool {
    1 <= c as u32 && c as u32 <= 15
}

/// Whether `s` holds no such control character.
pub open spec fn ctrl_free(s: Seq<char>) -> bool {
    forall|i: int| 0 <= i < s.len() ==> !is_ctrl(#[trigger] s[i])
}

/// Whether no field of the credential holds such a control character.
pub open spec fn quiet_record(r: RecordView) -> bool {
    ctrl_free(r.0) && ctrl_free(r.1.1) && ctrl_free(r.2)
}

/// Whether the only control characters of `s` are newlines, none of them
/// next to another.
pub open spec fn calm_chars(s: Seq<char>) -> bool {
    &&& forall|i: int| 0 <= i < s.len() && is_ctrl(#[trigger] s[i]) ==> s[i] == '\n'
    &&& forall|i: int| 0 <= i < s.len() - 1 && #[trigger] s[i] == '\n' ==> s[i + 1] != '\n'
}

proof fn lemma_line_ctrl_free(r: RecordView)
    requires
        quiet_record(r),
    ensures
        ctrl_free(record_line(r)),
        record_line(r).len() > 0,
{
    reveal_strlit("password");
    reveal_strlit("pin");
    let line = record_line(r);
    let st = secret_text(r.1);
    assert(ctrl_free(kind_tag(r.1.0)));
    assert(ctrl_free(st)) by {
        assert forall|i: int| 0 <= i < st.len() implies !is_ctrl(#[trigger] st[i]) by {
            if i < kind_tag(r.1.0).len() {
            } else if i == kind_tag(r.1.0).len() {
            } else {
                assert(st[i] == r.1.1[i - kind_tag(r.1.0).len() - 1]);
            }
        }
    }
    assert forall|i: int| 0 <= i < line.len() implies !is_ctrl(#[trigger] line[i]) by {
        let a = r.0.len() as int;
        let b = a + 1 + st.len();
        if i < a {
            assert(line[i] == r.0[i]);
        } else if i == a {
        } else if i < b {
            assert(line[i] == st[i - a - 1]);
        } else if i == b {
        } else {
            assert(line[i] == r.2[i - b - 1]);
        }
    }
}

/// The stored text of credentials without control characters holds newlines
/// only between lines, never two in a row.
pub proof fn lemma_records_text_calm(rs: Seq<RecordView>)
    requires
        forall|i: int| 0 <= i < rs.len() ==> quiet_record(#[trigger] rs[i]),
    ensures
        calm_chars(records_text(rs)),
        rs.len() > 0 ==> records_text(rs).len() > 0 && !is_ctrl(records_text(rs).last()),
    decreases rs.len(),
{
    if rs.len() == 0 {
    } else if rs.len() == 1 {
        lemma_line_ctrl_free(rs[0]);
    } else {
        let a = records_text(rs.drop_last());
        let line = record_line(rs.last());
        lemma_records_text_calm(rs.drop_last());
        lemma_line_ctrl_free(rs.last());
        let t = a + seq!['\n'] + line;
        assert(records_text(rs) == t);
        assert forall|i: int| 0 <= i < t.len() && is_ctrl(#[trigger] t[i]) implies t[i] == '\n' by {
            if i < a.len() {
                assert(t[i] == a[i]);
            } else if i > a.len() {
                assert(t[i] == line[i - a.len() - 1]);
            }
        }
        assert forall|i: int| 0 <= i < t.len() - 1 && #[trigger] t[i] == '\n' implies t[i + 1]
            != '\n' by {
            if i < a.len() - 1 {
                assert(t[i] == a[i]);
                assert(t[i + 1] == a[i + 1]);
            } else if i == a.len() - 1 {
                assert(t[i] == a.last());
            } else if i == a.len() {
                assert(t[i + 1] == line[0]);
            } else {
                assert(t[i] == line[i - a.len() - 1]);
            }
        }
        assert(t.last() == line.last());
    }
}

proof fn lemma_split_append(x: Seq<char>, y: Seq<char>, d: char)
    requires
        forall|i: int| 0 <= i < y.len() ==> y[i] != d,
    ensures
        split(x + y, d) == split(x, d).update(
            split(x, d).len() - 1,
            split(x, d).last() + y,
        ),
    decreases y.len(),
{
    lemma_split_nonempty(x, d);
    let p = split(x, d);
    if y.len() == 0 {
        assert(x + y =~= x);
        assert(p.update(p.len() - 1, p.last() + y) =~= p);
    } else {
        let y0 = y.drop_last();
        lemma_split_append(x, y0, d);
        assert((x + y).drop_last() =~= x + y0);
        assert((x + y).last() == y.last());
        let q = split(x + y0, d);
        assert((p.last() + y0).push(y.last()) =~= p.last() + y);
        assert(q.update(q.len() - 1, q.last().push(y.last())) =~= p.update(
            p.len() - 1,
            p.last() + y,
        ));
    }
}

proof fn lemma_split_sep(x: Seq<char>, y: Seq<char>, d: char)
    requires
        forall|i: int| 0 <= i < y.len() ==> y[i] != d,
    ensures
        split(x + seq![d] + y, d) == split(x, d).push(y),
{
    let xd = x + seq![d];
    assert(xd.drop_last() =~= x);
    lemma_split_append(xd, y, d);
    let p = split(x, d).push(Seq::<char>::empty());
    assert(p.update(p.len() - 1, p.last() + y) =~= split(x, d).push(y));
}

proof fn lemma_split_single(y: Seq<char>, d: char)
    requires
        forall|i: int| 0 <= i < y.len() ==> y[i] != d,
    ensures
        split(y, d) == seq![y],
{
    lemma_split_append(Seq::empty(), y, d);
    assert(Seq::<char>::empty() + y =~= y);
    assert(seq![Seq::<char>::empty()].update(0, Seq::<char>::empty() + y) =~= seq![y]);
}

proof fn lemma_tags()
    ensures
        forall|k: SecretTypeMessage, i: int|
            0 <= i < kind_tag(k).len() ==> kind_tag(k)[i] != ',' && kind_tag(k)[i] != ':'
                && kind_tag(k)[i] != '\n',
        "password"@ != "pin"@,
        "password"@.len() == 8,
        "pin"@.len() == 3,
{
    reveal_strlit("password");
    reveal_strlit("pin");
    assert("password"@.len() != "pin"@.len());
}

proof fn lemma_parse_line(r: RecordView)
    requires
        plain_record(r),
    ensures
        parse_line(record_line(r)) == Some(r),
        forall|i: int| 0 <= i < record_line(r).len() ==> record_line(r)[i] != '\n',
        record_line(r).len() > 0,
{
    lemma_tags();
    let tag = kind_tag(r.1.0);
    let st = secret_text(r.1);
    assert(forall|i: int| 0 <= i < st.len() ==> st[i] != ',' && st[i] != '\n');
    lemma_split_single(r.0, ',');
    lemma_split_sep(r.0, st, ',');
    lemma_split_sep(r.0 + seq![','] + st, r.2, ',');
    assert(record_line(r) =~= r.0 + seq![','] + st + seq![','] + r.2);
    let f = split(record_line(r), ',');
    assert(f =~= seq![r.0, st, r.2]);
    let tl = tag.len() as int;
    assert(first_colon(st, tl));
    let i = choose|i: int| first_colon(st, i);
    assert(i == tl);
    assert(st.subrange(0, tl) =~= tag);
    assert(st.subrange(tl + 1, st.len() as int) =~= r.1.1);
    assert(parse_secret(st) == Some(r.1));
    assert(record_line(r)[r.0.len() as int] == ',');
}

proof fn lemma_split_lines(rs: Seq<RecordView>)
    requires
        rs.len() >= 1,
        forall|i: int| 0 <= i < rs.len() ==> plain_record(#[trigger] rs[i]),
    ensures
        split(records_text(rs), '\n') == rs.map_values(|r: RecordView| record_line(r)),
    decreases rs.len(),
{
    lemma_parse_line(rs.last());
    if rs.len() == 1 {
        lemma_split_single(record_line(rs[0]), '\n');
        assert(rs.map_values(|r: RecordView| record_line(r)) =~= seq![record_line(rs[0])]);
    } else {
        lemma_split_lines(rs.drop_last());
        lemma_split_sep(records_text(rs.drop_last()), record_line(rs.last()), '\n');
        assert(rs.map_values(|r: RecordView| record_line(r)) =~= rs.drop_last().map_values(
            |r: RecordView| record_line(r),
        ).push(record_line(rs.last())));
    }
}

proof fn lemma_parse_record_lines(rs: Seq<RecordView>)
    requires
        forall|i: int| 0 <= i < rs.len() ==> plain_record(#[trigger] rs[i]),
    ensures
        parse_lines(rs.map_values(|r: RecordView| record_line(r))) == Some(rs),
    decreases rs.len(),
{
    let ls = rs.map_values(|r: RecordView| record_line(r));
    if rs.len() > 0 {
        lemma_parse_record_lines(rs.drop_last());
        lemma_parse_line(rs.last());
        assert(ls.drop_last() =~= rs.drop_last().map_values(|r: RecordView| record_line(r)));
        assert(rs.drop_last().push(rs.last()) =~= rs);
    } else {
        assert(ls =~= Seq::<Seq<char>>::empty());
    }
}

/// Encoding credentials whose fields hold no delimiter and parsing the text
/// back gives the same credentials in the same order.
pub proof fn lemma_codec_round_trip(rs: Seq<RecordView>)
    requires
        forall|i: int| 0 <= i < rs.len() ==> plain_record(#[trigger] rs[i]),
    ensures
        parse_text(records_text(rs)) == Some(rs),
{
    if rs.len() == 0 {
        let ls = split(records_text(rs), '\n');
        assert(ls =~= seq![Seq::<char>::empty()]);
        assert(ls.drop_last() =~= Seq::<Seq<char>>::empty());
        assert(parse_lines(ls.drop_last()) == Some(Seq::<RecordView>::empty()));
        assert(rs =~= Seq::<RecordView>::empty());
    } else {
        lemma_split_lines(rs);
        lemma_parse_record_lines(rs);
    }
}

/// The pieces of `s` between occurrences of `d`.
pub fn split_on(s: &str, d: char) -> (r: Vec<String>)
    ensures
        strings_view(r@) == split(s@, d),
{
    let n = s.unicode_len();
    let mut pieces: Vec<String> = Vec::new();
    let mut start: usize = 0;
    let mut i: usize = 0;
    assert(s@.subrange(0, 0) =~= Seq::<char>::empty());
    assert(strings_view(pieces@).push(s@.subrange(0, 0)) =~= split(Seq::<char>::empty(), d));
    while i < n
        invariant
            n == s@.len(),
            start <= i <= n,
            strings_view(pieces@).push(s@.subrange(start as int, i as int)) == split(
                s@.subrange(0, i as int),
                d,
            ),
        decreases n - i,
    {
        let c = s.get_char(i);
        let ghost prev = strings_view(pieces@).push(s@.subrange(start as int, i as int));
        assert(s@.subrange(0, i + 1).drop_last() =~= s@.subrange(0, i as int));
        if c == d {
            let ghost old_pieces = pieces@;
            let piece = s.substring_char(start, i).to_owned();
            pieces.push(piece);
            assert(strings_view(pieces@) =~= strings_view(old_pieces).push(piece@));
            start = i + 1;
            i = i + 1;
            assert(s@.subrange(start as int, i as int) =~= Seq::<char>::empty());
            assert(strings_view(pieces@).push(s@.subrange(start as int, i as int)) =~= prev.push(
                Seq::empty(),
            ));
        } else {
            i = i + 1;
            assert(s@.subrange(start as int, i as int) =~= s@.subrange(
                start as int,
                i - 1,
            ).push(c));
            assert(strings_view(pieces@).push(s@.subrange(start as int, i as int)) =~= prev.update(
                prev.len() - 1,
                prev.last().push(c),
            ));
        }
    }
    let last = s.substring_char(start, n).to_owned();
    pieces.push(last);
    assert(s@.subrange(0, n as int) =~= s@);
    assert(strings_view(pieces@) =~= split(s@, d));
    pieces
}

/// The stored text of `records`: one `username,kind:value,description` line
/// each, joined by `\n`, with nothing escaped.
pub fn encode_records(records: &Vec<Record>) -> (r: String)
    ensures
        r@ == records_text(records_view(records@)),
{
    let mut out = String::new();
    let mut i: usize = 0;
    assert(records_view(records@.subrange(0, 0)) =~= Seq::<RecordView>::empty());
    while i < records.len()
        invariant
            i <= records@.len(),
            out@ == records_text(records_view(records@.subrange(0, i as int))),
        decreases records@.len() - i,
    {
        proof {
            reveal_strlit(",");
            reveal_strlit("\n");
        }
        assert(","@ =~= seq![',']);
        assert("\n"@ =~= seq!['\n']);
        let ghost before = out@;
        if i > 0 {
            out.append("\n");
        }
        let ghost mid = out@;
        let rec = &records[i];
        let ghost r = record_view(records@[i as int]);
        out.append(rec.0.as_str());
        assert(out@ =~= mid + r.0);
        out.append(",");
        let st = rec.1.text();
        out.append(st.as_str());
        assert(out@ =~= mid + r.0 + seq![','] + secret_text(r.1));
        out.append(",");
        out.append(rec.2.as_str());
        let ghost rs = records_view(records@.subrange(0, i + 1));
        assert(rs.drop_last() =~= records_view(records@.subrange(0, i as int)));
        assert(rs.last() == record_view(records@[i as int]));
        assert(out@ =~= mid + record_line(record_view(records@[i as int])));
        if i > 0 {
            assert(out@ =~= before + seq!['\n'] + record_line(rs.last()));
        } else {
            assert(out@ =~= record_line(rs.last()));
        }
        i = i + 1;
    }
    assert(records@.subrange(0, records@.len() as int) =~= records@);
    out
}

/// The credential that one non-empty line describes.
fn parse_line_exec(line: &str) -> (r: Option<Record>)
    ensures
        match r {
            Some(x) => parse_line(line@) == Some(record_view(x)),
            None => parse_line(line@) is None,
        },
{
    let fields = split_on(line, ',');
    assert(strings_view(fields@).len() == fields@.len());
    if fields.len() < 2 {
        return None;
    }
    assert(strings_view(fields@)[1] == fields@[1]@);
    match Secret::parse(fields[1].as_str()) {
        None => None,
        Some(secret) => {
            let description = if fields.len() > 2 {
                assert(strings_view(fields@)[2] == fields@[2]@);
                fields[2].clone()
            } else {
                String::new()
            };
            assert(strings_view(fields@)[0] == fields@[0]@);
            Some((fields[0].clone(), secret, description))
        },
    }
}

/// The credentials of a stored text, one per non-empty line; `DecodeError`
/// where a line lacks a secret or names an unknown kind.
pub fn parse_records(text: &str) -> (r: Result<Vec<Record>, StoreError>)
    ensures
        match r {
            Ok(v) => parse_text(text@) == Some(records_view(v@)),
            Err(e) => parse_text(text@) is None && e is DecodeError,
        },
{
    let lines = split_on(text, '\n');
    let ghost ls = strings_view(lines@);
    let mut out: Vec<Record> = Vec::new();
    let mut i: usize = 0;
    assert(ls.subrange(0, 0) =~= Seq::<Seq<char>>::empty());
    assert(records_view(out@) =~= Seq::<RecordView>::empty());
    while i < lines.len()
        invariant
            ls == strings_view(lines@),
            ls == split(text@, '\n'),
            i <= lines@.len(),
            parse_lines(ls.subrange(0, i as int)) == Some(records_view(out@)),
        decreases lines@.len() - i,
    {
        let line = lines[i].as_str();
        assert(ls.subrange(0, i + 1).drop_last() =~= ls.subrange(0, i as int));
        assert(ls.subrange(0, i + 1).last() == line@);
        if line.is_empty() {
        } else {
            match parse_line_exec(line) {
                None => {
                    assert(parse_lines(ls.subrange(0, i + 1)) is None);
                    proof {
                        lemma_parse_lines_none(ls, i + 1);
                    }
                    return Err(StoreError::DecodeError);
                },
                Some(rec) => {
                    let ghost prev = records_view(out@);
                    out.push(rec);
                    assert(records_view(out@) =~= prev.push(record_view(rec)));
                },
            }
        }
        i = i + 1;
    }
    assert(ls.subrange(0, lines@.len() as int) =~= ls);
    Ok(out)
}

} // verus!
