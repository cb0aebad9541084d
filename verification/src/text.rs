//! The mathematical model of the text operations: substring containment,
//! line splitting, literal replacement and decimal rendering, each with a
//! verified executable counterpart.

use vstd::prelude::*;

verus! {

/// The characters of each string slice in a sequence.
pub open spec fn str_views(s: Seq<&str>) -> Seq<Seq<char>> {
    s.map_values(|a: &str| a@)
}

/// The characters of each owned string in a sequence.
pub open spec fn string_views(s: Seq<String>) -> Seq<Seq<char>> {
    s.map_values(|a: String| a@)
}

/// `q` occurs contiguously somewhere in `t` (anywhere, including the empty
/// occurrence when `q` is empty).
pub open spec fn has_substring(t: Seq<char>, q: Seq<char>) -> bool {
    exists|i: int| 0 <= i && i + q.len() <= t.len() && #[trigger] t.subrange(i, i + q.len()) == q
}

/// Whether `query` occurs in `text` starting at character `offset`.
fn matches_at(text: &str, query: &str, offset: usize, tlen: usize, qlen: usize) -> (r: bool)
    requires
        tlen == text@.len(),
        qlen == query@.len(),
        offset + qlen <= tlen,
    ensures
        r == (text@.subrange(offset as int, offset + qlen) == query@),
{
    let mut j: usize = 0;
    while j < qlen
        invariant
            tlen == text@.len(),
            qlen == query@.len(),
            offset + qlen <= tlen,
            j <= qlen,
            forall|k: int| 0 <= k < j ==> text@[offset + k] == query@[k],
        decreases qlen - j,
    {
        if text.get_char(offset + j) != query.get_char(j) {
            proof {
                assert(text@.subrange(offset as int, offset + qlen)[j as int] != query@[j as int]);
            }
            return false;
        }
        j = j + 1;
    }
    proof {
        assert(text@.subrange(offset as int, offset + qlen) =~= query@);
    }
    true
}

/// Substring containment: whether `query` occurs contiguously in `text`.
pub(crate) fn contains_str(text: &str, query: &str) -> (r: bool)
    ensures
        r == has_substring(text@, query@),
{
    let tlen: usize = text.unicode_len();
    let qlen: usize = query.unicode_len();
    if qlen > tlen {
        return false;
    }
    if qlen == 0 {
        proof {
            assert(has_substring(text@, query@)) by {
                assert(text@.subrange(0, 0 + query@.len() as int) =~= query@);
            }
        }
        return true;
    }
    let end: usize = tlen - qlen;
    let mut i: usize = 0;
    while i <= end
        invariant
            tlen == text@.len(),
            qlen == query@.len(),
            1 <= qlen <= tlen,
            end == tlen - qlen,
            i <= end + 1,
            forall|k: int| 0 <= k < i ==> #[trigger] text@.subrange(k, k + qlen) != query@,
        decreases end + 1 - i,
    {
        if matches_at(text, query, i, tlen, qlen) {
            proof {
                assert(text@.subrange(i as int, i + qlen) == query@);
            }
            return true;
        }
        i = i + 1;
    }
    proof {
        assert forall|k: int| 0 <= k && k + query@.len() <= text@.len() implies #[trigger] text@
            .subrange(k, k + query@.len()) != query@ by {
            assert(k <= end);
        }
    }
    false
}

/// One trailing carriage return is removed from a line that was ended by a
/// line feed, so that a `\r\n` terminator leaves no `\r` in the line.
pub open spec fn strip_cr(s: Seq<char>) -> Seq<char> {
    if s.len() > 0 && s[s.len() - 1] == '\r' {
        s.drop_last()
    } else {
        s
    }
}

/// The lines of `t` after the partial line `cur` already read: lines end at
/// each `'\n'` (dropping one `'\r'` just before it), and a last line without
/// a terminator is kept unless it is empty.
pub open spec fn split_lines_from(t: Seq<char>, cur: Seq<char>) -> Seq<Seq<char>>
    decreases t.len(),
{
    if t.len() == 0 {
        if cur.len() == 0 {
            Seq::empty()
        } else {
            seq![cur]
        }
    } else if t[0] == '\n' {
        seq![strip_cr(cur)] + split_lines_from(t.drop_first(), Seq::empty())
    } else {
        split_lines_from(t.drop_first(), cur.push(t[0]))
    }
}

/// The lines of a text, in order: split at `'\n'` or `"\r\n"`, with no empty
/// final line after a trailing terminator.
pub open spec fn split_lines(t: Seq<char>) -> Seq<Seq<char>> {
    split_lines_from(t, Seq::empty())
}

/// The lines of `contents`, each borrowed from it.
pub(crate) fn split_to_lines<'a>(contents: &'a str) -> (lines: Vec<&'a str>)
    ensures
        str_views(lines@) == split_lines(contents@),
{
    let tlen: usize = contents.unicode_len();
    let mut lines: Vec<&'a str> = Vec::new();
    let mut start: usize = 0;
    let mut i: usize = 0;
    proof {
        assert(contents@.subrange(0, tlen as int) =~= contents@);
        assert(contents@.subrange(0, 0) =~= Seq::<char>::empty());
        assert(str_views(lines@) =~= Seq::<Seq<char>>::empty());
    }
    while i < tlen
        invariant
            tlen == contents@.len(),
            start <= i <= tlen,
            split_lines(contents@) == str_views(lines@) + split_lines_from(
                contents@.subrange(i as int, tlen as int),
                contents@.subrange(start as int, i as int),
            ),
        decreases tlen - i,
    {
        let ghost rest = contents@.subrange(i as int, tlen as int);
        let ghost cur = contents@.subrange(start as int, i as int);
        proof {
            assert(rest.len() > 0);
            assert(rest[0] == contents@[i as int]);
        }
        let c = contents.get_char(i);
        if c == '\n' {
            let line_end: usize = if i > start && contents.get_char(i - 1) == '\r' {
                i - 1
            } else {
                i
            };
            let line = contents.substring_char(start, line_end);
            proof {
                assert(rest.drop_first() =~= contents@.subrange(i + 1, tlen as int));
                assert(contents@.subrange(i + 1, i + 1) =~= Seq::<char>::empty());
                assert(strip_cr(cur) =~= contents@.subrange(start as int, line_end as int));
                assert(str_views(lines@.push(line)) =~= str_views(lines@).push(line@));
                assert(str_views(lines@).push(line@) + split_lines_from(
                    contents@.subrange(i + 1, tlen as int),
                    Seq::empty(),
                ) =~= str_views(lines@) + (seq![strip_cr(cur)] + split_lines_from(
                    contents@.subrange(i + 1, tlen as int),
                    Seq::empty(),
                )));
            }
            lines.push(line);
            start = i + 1;
        } else {
            proof {
                assert(rest.drop_first() =~= contents@.subrange(i + 1, tlen as int));
                assert(cur.push(contents@[i as int]) =~= contents@.subrange(
                    start as int,
                    i + 1,
                ));
            }
        }
        i = i + 1;
    }
    proof {
        assert(contents@.subrange(tlen as int, tlen as int) =~= Seq::<char>::empty());
    }
    if start < tlen {
        let line = contents.substring_char(start, tlen);
        proof {
            assert(str_views(lines@.push(line)) =~= str_views(lines@).push(line@));
            assert(str_views(lines@).push(line@) =~= str_views(lines@) + seq![
                contents@.subrange(start as int, tlen as int),
            ]);
        }
        lines.push(line);
    } else {
        proof {
            assert(str_views(lines@) + Seq::<Seq<char>>::empty() =~= str_views(lines@));
        }
    }
    lines
}

/// `t` with every non-overlapping occurrence of `q` replaced by `r`,
/// scanning left to right; an empty `q` leaves `t` unchanged.
pub open spec fn replaced(t: Seq<char>, q: Seq<char>, r: Seq<char>) -> Seq<char>
    decreases t.len(),
{
    if q.len() == 0 || t.len() < q.len() {
        t
    } else if t.subrange(0, q.len() as int) == q {
        r + replaced(t.subrange(q.len() as int, t.len() as int), q, r)
    } else {
        seq![t[0]] + replaced(t.subrange(1, t.len() as int), q, r)
    }
}

/// `contents` with every non-overlapping occurrence of `query` replaced by
/// `replacement`, leftmost first.
pub fn replace(query: &str, replacement: &str, contents: &str) -> (result: String)
    ensures
        result@ == replaced(contents@, query@, replacement@),
{
    let qlen: usize = query.unicode_len();
    let tlen: usize = contents.unicode_len();
    if qlen == 0 {
        return contents.to_owned();
    }
    let mut result = String::new();
    let mut i: usize = 0;
    proof {
        assert(contents@.subrange(0, tlen as int) =~= contents@);
        assert(Seq::<char>::empty() + replaced(contents@, query@, replacement@) =~= replaced(
            contents@,
            query@,
            replacement@,
        ));
    }
    while i < tlen
        invariant
            tlen == contents@.len(),
            qlen == query@.len(),
            1 <= qlen,
            i <= tlen,
            replaced(contents@, query@, replacement@) == result@ + replaced(
                contents@.subrange(i as int, tlen as int),
                query@,
                replacement@,
            ),
        decreases tlen - i,
    {
        let ghost suffix = contents@.subrange(i as int, tlen as int);
        if qlen <= tlen - i && matches_at(contents, query, i, tlen, qlen) {
            proof {
                assert(suffix.subrange(0, qlen as int) =~= contents@.subrange(
                    i as int,
                    i + qlen,
                ));
                assert(suffix.subrange(qlen as int, suffix.len() as int) =~= contents@.subrange(
                    i + qlen,
                    tlen as int,
                ));
            }
            result.append(replacement);
            i = i + qlen;
        } else {
            let ch = contents.substring_char(i, i + 1);
            proof {
                if i + qlen <= tlen {
                    assert(suffix.subrange(0, qlen as int) =~= contents@.subrange(
                        i as int,
                        i + qlen,
                    ));
                    assert(suffix.len() >= qlen);
                } else {
                    assert(suffix.len() < qlen);
                }
                assert(suffix.subrange(1, suffix.len() as int) =~= contents@.subrange(
                    i + 1,
                    tlen as int,
                ));
                assert(ch@ =~= seq![suffix[0]]);
                if suffix.len() < qlen {
                    assert(suffix =~= seq![suffix[0]] + contents@.subrange(i + 1, tlen as int));
                    assert(contents@.subrange(i + 1, tlen as int).len() < qlen);
                }
            }
            result.append(ch);
            i = i + 1;
        }
    }
    proof {
        assert(contents@.subrange(tlen as int, tlen as int) =~= Seq::<char>::empty());
        assert(result@ + Seq::<char>::empty() =~= result@);
    }
    result
}

/// The decimal digit characters of `n`, most significant first.
pub open spec fn decimal_chars(n: nat) -> Seq<char>
    decreases n,
{
    if n < 10 {
        seq![digit_char(n)]
    } else {
        decimal_chars(n / 10).push(digit_char(n % 10))
    }
}

/// The character for one decimal digit.
pub open spec fn digit_char(d: nat) -> char {
    if d == 0 {
        '0'
    } else if d == 1 {
        '1'
    } else if d == 2 {
        '2'
    } else if d == 3 {
        '3'
    } else if d == 4 {
        '4'
    } else if d == 5 {
        '5'
    } else if d == 6 {
        '6'
    } else if d == 7 {
        '7'
    } else if d == 8 {
        '8'
    } else {
        '9'
    }
}

/// One decimal digit as a string slice.
fn digit_str(d: usize) -> (s: &'static str)
    requires
        d < 10,
    ensures
        s@ == seq![digit_char(d as nat)],
{
    let s: &'static str = if d == 0 {
        "0"
    } else if d == 1 {
        "1"
    } else if d == 2 {
        "2"
    } else if d == 3 {
        "3"
    } else if d == 4 {
        "4"
    } else if d == 5 {
        "5"
    } else if d == 6 {
        "6"
    } else if d == 7 {
        "7"
    } else if d == 8 {
        "8"
    } else {
        "9"
    };
    proof {
        reveal_strlit("0");
        reveal_strlit("1");
        reveal_strlit("2");
        reveal_strlit("3");
        reveal_strlit("4");
        reveal_strlit("5");
        reveal_strlit("6");
        reveal_strlit("7");
        reveal_strlit("8");
        reveal_strlit("9");
        assert(s@ =~= seq![digit_char(d as nat)]);
    }
    s
}

/// The decimal rendering of `n`.
pub(crate) fn usize_to_decimal(n: usize) -> (s: String)
    ensures
        s@ == decimal_chars(n as nat),
    decreases n,
{
    if n < 10 {
        String::from_str(digit_str(n))
    } else {
        let prefix = usize_to_decimal(n / 10);
        let s = prefix.concat(digit_str(n % 10));
        proof {
            assert(s@ =~= decimal_chars(n as nat));
        }
        s
    }
}

/// Character-wise string equality.
pub(crate) fn str_eq(a: &str, b: &str) -> (r: bool)
    ensures
        r == (a@ == b@),
{
    let alen: usize = a.unicode_len();
    let blen: usize = b.unicode_len();
    if alen != blen {
        return false;
    }
    let mut j: usize = 0;
    while j < alen
        invariant
            alen == a@.len(),
            alen == b@.len(),
            j <= alen,
            forall|k: int| 0 <= k < j ==> a@[k] == b@[k],
        decreases alen - j,
    {
        if a.get_char(j) != b.get_char(j) {
            return false;
        }
        j = j + 1;
    }
    proof {
        assert(a@ =~= b@);
    }
    true
}

} // verus!
