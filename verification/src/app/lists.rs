//! Lists: reading the emails pasted into the list editor.
use vstd::prelude::*;

use crate::text::{char_is_whitespace, lemma_trim_keeps, push_char, split_char, split_seq, strings_seq, trim, trim_seq};

verus! {

/// Whether `lettre` reads `s` as a mailbox (`Mailbox::from_str` succeeds).
pub uninterp spec fn mailbox_parses(s: Seq<char>) -> bool;

/// Calls `<lettre::message::Mailbox as FromStr>::from_str` and reports whether it succeeded;
/// the answer is named `mailbox_parses`.
#[verifier::external_body]
pub(crate) fn is_mailbox(s: &str) -> (r: bool)
    ensures
        r == mailbox_parses(s@),
{
    s.parse::<lettre::message::Mailbox>().is_ok()
}

/// The characters that separate the parts of a pasted line.
pub open spec fn is_email_sep(c: char) -> bool {
    c == ' ' || c == ',' || c == '\t' || c == '<' || c == '>'
}

/// The pieces of `s` between separators, as `str::split` with a set of characters yields them.
pub open spec fn split_seps(s: Seq<char>) -> Seq<Seq<char>>
    decreases s.len(),
{
    if s.len() == 0 {
        seq![Seq::empty()]
    } else {
        let prev = split_seps(s.drop_last());
        if is_email_sep(s.last()) {
            prev.push(Seq::empty())
        } else {
            prev.update(prev.len() - 1, prev.last().push(s.last()))
        }
    }
}

proof fn lemma_split_seps_len(s: Seq<char>)
    ensures
        split_seps(s).len() >= 1,
    decreases s.len(),
{
    if s.len() > 0 {
        lemma_split_seps_len(s.drop_last());
    }
}

fn split_on_seps(s: &str) -> (pieces: Vec<String>)
    ensures
        strings_seq(pieces@) == split_seps(s@),
{
    let n = s.unicode_len();
    let mut pieces: Vec<String> = Vec::new();
    let mut cur = String::new();
    let mut i: usize = 0;
    while i < n
        invariant
            n == s@.len(),
            i <= n,
            strings_seq(pieces@).push(cur@) == split_seps(s@.take(i as int)),
        decreases n - i,
    {
        proof {
            assert(s@.take(i + 1).drop_last() =~= s@.take(i as int));
            lemma_split_seps_len(s@.take(i as int));
        }
        let c = s.get_char(i);
        let ghost prev = split_seps(s@.take(i as int));
        if c == ' ' || c == ',' || c == '\t' || c == '<' || c == '>' {
            let done = cur;
            pieces.push(done);
            cur = String::new();
            proof {
                assert(strings_seq(pieces@) =~= prev);
                assert(strings_seq(pieces@).push(cur@) =~= split_seps(s@.take(i + 1)));
            }
        } else {
            push_char(&mut cur, c);
            proof {
                assert(strings_seq(pieces@).push(cur@) =~= prev.update(prev.len() - 1, prev.last().push(c)));
            }
        }
        i = i + 1;
    }
    assert(s@.take(n as int) =~= s@);
    let ghost before = pieces@;
    pieces.push(cur);
    assert(strings_seq(pieces@) =~= strings_seq(before).push(cur@));
    pieces
}

/// The first of `pieces`, trimmed, that contains an `@`.
pub open spec fn first_with_at(pieces: Seq<Seq<char>>) -> Option<Seq<char>>
    decreases pieces.len(),
{
    if pieces.len() == 0 {
        None
    } else if trim_seq(pieces[0]).contains('@') {
        Some(trim_seq(pieces[0]))
    } else {
        first_with_at(pieces.drop_first())
    }
}

fn contains_at(s: &str) -> (r: bool)
    ensures
        r == s@.contains('@'),
{
    let n = s.unicode_len();
    let mut i: usize = 0;
    while i < n
        invariant
            n == s@.len(),
            i <= n,
            forall|k: int| 0 <= k < i ==> s@[k] != '@',
        decreases n - i,
    {
        if s.get_char(i) == '@' {
            return true;
        }
        i = i + 1;
    }
    false
}

/// The email of a trimmed line: the first part holding an `@`.
fn line_email(line: &str) -> (r: Option<String>)
    ensures
        match r {
            Some(e) => first_with_at(split_seps(line@)) == Some(e@),
            None => first_with_at(split_seps(line@)) is None,
        },
{
    let pieces = split_on_seps(line);
    let ghost ps = split_seps(line@);
    let mut i: usize = 0;
    assert(ps.skip(0) =~= ps);
    while i < pieces.len()
        invariant
            i <= pieces@.len(),
            strings_seq(pieces@) == ps,
            ps == split_seps(line@),
            first_with_at(ps) == first_with_at(ps.skip(i as int)),
        decreases pieces@.len() - i,
    {
        proof {
            assert(ps.skip(i as int)[0] == pieces@[i as int]@);
            assert(ps.skip(i as int).drop_first() =~= ps.skip(i + 1));
        }
        let t = trim(pieces[i].as_str());
        if contains_at(t.as_str()) {
            return Some(t);
        }
        i = i + 1;
    }
    proof {
        assert(ps.skip(i as int).len() == 0);
    }
    None
}

/// The result of reading the pasted emails: the emails in order, or the first line
/// (trimmed) without a valid one.
pub open spec fn pasted_emails(lines: Seq<Seq<char>>) -> Result<Seq<Seq<char>>, Seq<char>>
    decreases lines.len(),
{
    if lines.len() == 0 {
        Ok(Seq::empty())
    } else {
        let rest = pasted_emails(lines.drop_first());
        let line = trim_seq(lines[0]);
        if line.len() == 0 {
            rest
        } else {
            match first_with_at(split_seps(line)) {
                Some(e) => if mailbox_parses(e) {
                    match rest {
                        Ok(es) => Ok(seq![e] + es),
                        Err(l) => Err(l),
                    }
                } else {
                    Err(line)
                },
                None => Err(line),
            }
        }
    }
}

proof fn lemma_first_with_at(pieces: Seq<Seq<char>>)
    ensures
        first_with_at(pieces) matches Some(e) ==> e.contains('@'),
    decreases pieces.len(),
{
    if pieces.len() > 0 {
        lemma_first_with_at(pieces.drop_first());
    }
}

/// Every email read from a pasted list holds an `@` and is read by `lettre` as a mailbox,
/// and there is at most one per line.
pub proof fn lemma_pasted_emails_are_mailboxes(lines: Seq<Seq<char>>)
    requires
        pasted_emails(lines) is Ok,
    ensures
        pasted_emails(lines)->Ok_0.len() <= lines.len(),
        forall|i: int|
            0 <= i < pasted_emails(lines)->Ok_0.len() ==> #[trigger] pasted_emails(lines)->Ok_0[i].contains('@')
                && mailbox_parses(pasted_emails(lines)->Ok_0[i]),
    decreases lines.len(),
{
    if lines.len() > 0 {
        lemma_pasted_emails_are_mailboxes(lines.drop_first());
        let line = trim_seq(lines[0]);
        lemma_first_with_at(split_seps(line));
        let rest = pasted_emails(lines.drop_first())->Ok_0;
        let all = pasted_emails(lines)->Ok_0;
        if line.len() > 0 {
            let e = first_with_at(split_seps(line))->0;
            assert(all == seq![e] + rest);
            assert forall|i: int| 0 <= i < all.len() implies #[trigger] all[i].contains('@') && mailbox_parses(all[i]) by {
                if i > 0 {
                    assert(all[i] == rest[i - 1]);
                }
            }
        }
    }
}

proof fn lemma_trim_within(s: Seq<char>)
    ensures
        forall|k: int| 0 <= k < trim_seq(s).len() ==> s.contains(#[trigger] trim_seq(s)[k]),
    decreases s.len(),
{
    if s.len() > 0 && char_is_whitespace(s[0]) {
        lemma_trim_within(s.drop_first());
        assert forall|k: int| 0 <= k < trim_seq(s).len() implies s.contains(#[trigger] trim_seq(s)[k]) by {
            let x = trim_seq(s)[k];
            assert(trim_seq(s) == trim_seq(s.drop_first()));
            assert(s.drop_first().contains(trim_seq(s.drop_first())[k]));
            let m = choose|m: int| 0 <= m < s.drop_first().len() && s.drop_first()[m] == x;
            assert(s[m + 1] == x);
        }
    } else if s.len() > 0 && char_is_whitespace(s.last()) {
        lemma_trim_within(s.drop_last());
        assert forall|k: int| 0 <= k < trim_seq(s).len() implies s.contains(#[trigger] trim_seq(s)[k]) by {
            let x = trim_seq(s)[k];
            assert(trim_seq(s) == trim_seq(s.drop_last()));
            assert(s.drop_last().contains(trim_seq(s.drop_last())[k]));
            let m = choose|m: int| 0 <= m < s.drop_last().len() && s.drop_last()[m] == x;
            assert(s[m] == x);
        }
    } else {
        assert forall|k: int| 0 <= k < trim_seq(s).len() implies s.contains(#[trigger] trim_seq(s)[k]) by {
            assert(s[k] == trim_seq(s)[k]);
        }
    }
}

proof fn lemma_trim_keeps_at(s: Seq<char>)
    ensures
        trim_seq(s).contains('@') == s.contains('@'),
{
    lemma_trim_within(s);
    if s.contains('@') {
        let i = choose|i: int| 0 <= i < s.len() && s[i] == '@';
        lemma_trim_keeps(s, i);
    }
    if trim_seq(s).contains('@') {
        let k = choose|k: int| 0 <= k < trim_seq(s).len() && trim_seq(s)[k] == '@';
        assert(s.contains(trim_seq(s)[k]));
    }
}

/// Whether piece `j` of `s`, split at separators, starts at `b[j]` and is followed (unless it
/// is the last) by a separator.
spec fn piece_bounded(s: Seq<char>, b: Seq<int>, j: int) -> bool {
    let p = split_seps(s)[j];
    &&& 0 <= b[j]
    &&& b[j] + p.len() + 1 == b[j + 1]
    &&& b[j] + p.len() <= s.len()
    &&& p =~= s.subrange(b[j], b[j] + p.len())
    &&& forall|k: int| 0 <= k < p.len() ==> !is_email_sep(#[trigger] p[k])
    &&& j < split_seps(s).len() - 1 ==> is_email_sep(s[b[j] + p.len()])
}

/// Where the pieces of `s` lie: piece `j` starts at `b[j]`, and the character after it
/// (for every piece but the last) is a separator.
proof fn lemma_split_seps_bounds(s: Seq<char>) -> (b: Seq<int>)
    ensures
        b.len() == split_seps(s).len() + 1,
        b[0] == 0,
        b[split_seps(s).len() as int] == s.len() + 1,
        forall|j: int| 0 <= j < split_seps(s).len() ==> #[trigger] piece_bounded(s, b, j),
    decreases s.len(),
{
    if s.len() == 0 {
        assert(split_seps(s).len() == 1);
        assert(split_seps(s)[0] =~= s.subrange(0, 0));
        let b = seq![0int, 1int];
        assert(b[0] == 0 && b[1] == 1);
        assert(split_seps(s)[0].len() == 0);
        assert forall|j: int| 0 <= j < split_seps(s).len() implies #[trigger] piece_bounded(s, b, j) by {
            assert(j == 0);
        }
        b
    } else {
        let prev_s = s.drop_last();
        let b0 = lemma_split_seps_bounds(prev_s);
        let prev = split_seps(prev_s);
        let ps = split_seps(s);
        let c = s.last();
        lemma_split_seps_len(prev_s);
        if is_email_sep(c) {
            let b = b0.push(s.len() + 1int);
            assert forall|j: int| 0 <= j < ps.len() implies #[trigger] piece_bounded(s, b, j) by {
                if j < prev.len() {
                    let p = prev[j];
                    assert(piece_bounded(prev_s, b0, j));
                    assert(ps[j] == p);
                    assert(p == prev_s.subrange(b0[j], b0[j] + p.len()));
                    assert(s.subrange(b[j], b[j] + p.len()) =~= prev_s.subrange(b0[j], b0[j] + p.len()));
                    if j < prev.len() - 1 {
                        let p1 = prev[j + 1];
                        assert(piece_bounded(prev_s, b0, j + 1));
                        assert(b0[j + 1] + p1.len() <= prev_s.len());
                        assert(s[b[j] + p.len()] == prev_s[b0[j] + p.len()]);
                    } else {
                        assert(b0[j + 1] == prev_s.len() + 1);
                        assert(b[j] + p.len() == s.len() - 1);
                    }
                } else {
                    assert(b[j] == b0[prev.len() as int]);
                    assert(ps[j] =~= Seq::<char>::empty());
                    assert(s.subrange(b[j], b[j]) =~= Seq::<char>::empty());
                }
            }
            b
        } else {
            let last = prev.len() - 1;
            let b = b0.update(prev.len() as int, s.len() + 1int);
            assert forall|j: int| 0 <= j < ps.len() implies #[trigger] piece_bounded(s, b, j) by {
                let q = prev[j];
                assert(piece_bounded(prev_s, b0, j));
                assert(q == prev_s.subrange(b0[j], b0[j] + q.len()));
                if j < last {
                    assert(ps[j] == q);
                    assert(s.subrange(b[j], b[j] + q.len()) =~= prev_s.subrange(b0[j], b0[j] + q.len()));
                    let q1 = prev[j + 1];
                    assert(piece_bounded(prev_s, b0, j + 1));
                    assert(b0[j + 1] + q1.len() <= prev_s.len());
                    assert(s[b[j] + q.len()] == prev_s[b0[j] + q.len()]);
                } else {
                    assert(ps[j] == q.push(c));
                    assert(b0[j + 1] == prev_s.len() + 1);
                    assert(b0[j] + q.len() == prev_s.len());
                    assert(s.subrange(b[j], b[j] + q.len() + 1) =~= prev_s.subrange(b0[j], b0[j] + q.len()).push(c));
                    assert forall|k: int| 0 <= k < ps[j].len() implies !is_email_sep(#[trigger] ps[j][k]) by {
                        if k < q.len() {
                            assert(ps[j][k] == q[k]);
                        }
                    }
                }
            }
            b
        }
    }
}

proof fn lemma_locate(b: Seq<int>, k: int, j: int) -> (r: int)
    requires
        0 <= j < b.len() - 1,
        b[j] <= k < b[b.len() - 1],
    ensures
        j <= r < b.len() - 1,
        b[r] <= k < b[r + 1],
    decreases b.len() - j,
{
    if k < b[j + 1] {
        j
    } else {
        lemma_locate(b, k, j + 1)
    }
}

proof fn lemma_bounds_grow(b: Seq<int>, a: int, c: int)
    requires
        0 <= a <= c < b.len(),
        forall|j: int| 0 <= j < b.len() - 1 ==> #[trigger] b[j] < b[j + 1],
    ensures
        b[a] <= b[c],
    decreases c - a,
{
    if a < c {
        lemma_bounds_grow(b, a, c - 1);
        assert(b[c - 1] < b[c]);
    }
}

proof fn lemma_first_with_at_is_first(pieces: Seq<Seq<char>>)
    ensures
        (first_with_at(pieces) is None) == (forall|j: int| 0 <= j < pieces.len() ==> !(#[trigger] pieces[j]).contains('@')),
        first_with_at(pieces) matches Some(e) ==> exists|j: int|
            0 <= j < pieces.len() && e == trim_seq(#[trigger] pieces[j]) && pieces[j].contains('@') && forall|i: int|
                0 <= i < j ==> !(#[trigger] pieces[i]).contains('@'),
    decreases pieces.len(),
{
    if pieces.len() > 0 {
        lemma_first_with_at_is_first(pieces.drop_first());
        lemma_trim_keeps_at(pieces[0]);
        let rest = pieces.drop_first();
        if !pieces[0].contains('@') {
            assert forall|j: int| 0 < j < pieces.len() implies (#[trigger] pieces[j]) == rest[j - 1] by {}
            if first_with_at(pieces) is None {
                assert forall|j: int| 0 <= j < pieces.len() implies !(#[trigger] pieces[j]).contains('@') by {
                    if j > 0 {
                        assert(!rest[j - 1].contains('@'));
                    }
                }
            } else {
                let e = first_with_at(pieces)->0;
                let j = choose|j: int|
                    0 <= j < rest.len() && e == trim_seq(#[trigger] rest[j]) && rest[j].contains('@') && forall|i: int|
                        0 <= i < j ==> !(#[trigger] rest[i]).contains('@');
                assert(pieces[j + 1] == rest[j]);
                assert forall|i: int| 0 <= i < j + 1 implies !(#[trigger] pieces[i]).contains('@') by {
                    if i > 0 {
                        assert(pieces[i] == rest[i - 1]);
                    }
                }
            }
            if forall|j: int| 0 <= j < pieces.len() ==> !(#[trigger] pieces[j]).contains('@') {
                assert forall|j: int| 0 <= j < rest.len() implies !(#[trigger] rest[j]).contains('@') by {
                    assert(rest[j] == pieces[j + 1]);
                }
            }
        }
    }
}

/// The email read from a line is the stretch around the line's first `@` between the
/// separators ' ', ',', '\t', '<' and '>', trimmed: a line holds an email exactly when it holds
/// an `@`, and the email then holds that `@` and none of the separators.
pub proof fn lemma_line_email_is_the_stretch_around_the_first_at(line: Seq<char>)
    ensures
        (first_with_at(split_seps(line)) is Some) == line.contains('@'),
        first_with_at(split_seps(line)) matches Some(e) ==> {
            &&& e.contains('@')
            &&& forall|k: int|
                0 <= k < e.len() ==> #[trigger] e[k] != ' ' && e[k] != ',' && e[k] != '\t' && e[k] != '<' && e[k] != '>'
            &&& exists|lo: int, hi: int|
                {
                    &&& 0 <= lo < hi <= line.len()
                    &&& e == #[trigger] trim_seq(line.subrange(lo, hi))
                    &&& line.subrange(lo, hi).contains('@')
                    &&& forall|k: int| 0 <= k < lo ==> #[trigger] line[k] != '@'
                    &&& forall|k: int|
                        lo <= k < hi ==> #[trigger] line[k] != ' ' && line[k] != ',' && line[k] != '\t' && line[k]
                            != '<' && line[k] != '>'
                    &&& lo == 0 || line[lo - 1] == ' ' || line[lo - 1] == ',' || line[lo - 1] == '\t' || line[lo - 1]
                        == '<' || line[lo - 1] == '>'
                    &&& hi == line.len() || line[hi] == ' ' || line[hi] == ',' || line[hi] == '\t' || line[hi] == '<'
                        || line[hi] == '>'
                }
        },
{
    let ps = split_seps(line);
    let b = lemma_split_seps_bounds(line);
    lemma_first_with_at_is_first(ps);
    lemma_split_seps_len(line);
    if line.contains('@') {
        let i = choose|i: int| 0 <= i < line.len() && line[i] == '@';
        if first_with_at(ps) is None {
            // Some piece holds position i, or i is the separator after one.
            let j = lemma_locate(b, i, 0);
            assert(piece_bounded(line, b, j));
            let p = ps[j];
            assert(b[j] + p.len() + 1 == b[j + 1]);
            if i < b[j] + p.len() {
                assert(p[i - b[j]] == line[i]);
            } else {
                assert(j < ps.len() - 1);
                assert(is_email_sep(line[b[j] + p.len()]));
            }
        }
    } else {
        if first_with_at(ps) is Some {
            let j = choose|j: int| 0 <= j < ps.len() && ps[j].contains('@');
            let p = ps[j];
            assert(piece_bounded(line, b, j));
            let m = choose|m: int| 0 <= m < p.len() && p[m] == '@';
            assert(p[m] == line[b[j] + m]);
        }
    }
    if first_with_at(ps) is Some {
        let e = first_with_at(ps)->0;
        let j = choose|j: int|
            0 <= j < ps.len() && e == trim_seq(#[trigger] ps[j]) && ps[j].contains('@') && forall|i: int|
                0 <= i < j ==> !(#[trigger] ps[i]).contains('@');
        let p = ps[j];
        assert(piece_bounded(line, b, j));
        let lo = b[j];
        let hi = b[j] + p.len();
        lemma_trim_keeps_at(p);
        lemma_trim_within(p);
        assert(p == line.subrange(lo, hi));
        assert(p.len() > 0);
        assert forall|k: int| 0 <= k < e.len() implies #[trigger] e[k] != ' ' && e[k] != ',' && e[k] != '\t' && e[k] != '<'
            && e[k] != '>' by {
            assert(p.contains(e[k]));
            let m = choose|m: int| 0 <= m < p.len() && p[m] == e[k];
            assert(!is_email_sep(p[m]));
        }
        assert forall|k: int| lo <= k < hi implies #[trigger] line[k] != ' ' && line[k] != ',' && line[k] != '\t'
            && line[k] != '<' && line[k] != '>' by {
            assert(line[k] == p[k - lo]);
            assert(!is_email_sep(p[k - lo]));
        }
        // No `@` before the piece: earlier pieces hold none, and between pieces stand separators.
        assert forall|k: int| 0 <= k < lo implies #[trigger] line[k] != '@' by {
            let jj = lemma_locate(b, k, 0);
            assert forall|m: int| 0 <= m < b.len() - 1 implies #[trigger] b[m] < b[m + 1] by {
                assert(piece_bounded(line, b, m));
            }
            if jj >= j {
                if jj > j {
                    lemma_bounds_grow(b, j + 1, jj);
                }
                assert(false);
            }
            let q = ps[jj];
            assert(piece_bounded(line, b, jj));
            assert(!q.contains('@'));
            if k < b[jj] + q.len() {
                assert(q[k - b[jj]] == line[k]);
            } else {
                assert(is_email_sep(line[b[jj] + q.len()]));
            }
        }
        if j > 0 {
            assert(piece_bounded(line, b, j - 1));
            assert(b[j - 1] + ps[j - 1].len() + 1 == lo);
            assert(is_email_sep(line[lo - 1]));
        }
        if j < ps.len() - 1 {
            let p1 = ps[j + 1];
            assert(piece_bounded(line, b, j + 1));
            assert(b[j + 1] + p1.len() <= line.len());
            assert(is_email_sep(line[hi]));
        } else {
            assert(b[j + 1] == line.len() + 1);
        }
        assert(e == trim_seq(line.subrange(lo, hi)));
    }
}

/// No email read from pasted text holds a separator (' ', ',', '\t', '<' or '>'), and each
/// holds an `@`.
pub proof fn lemma_pasted_emails_hold_no_separators(lines: Seq<Seq<char>>)
    requires
        pasted_emails(lines) is Ok,
    ensures
        forall|i: int, k: int|
            0 <= i < pasted_emails(lines)->Ok_0.len() && 0 <= k < pasted_emails(lines)->Ok_0[i].len() ==> {
                let c = #[trigger] pasted_emails(lines)->Ok_0[i][k];
                c != ' ' && c != ',' && c != '\t' && c != '<' && c != '>'
            },
        forall|i: int| 0 <= i < pasted_emails(lines)->Ok_0.len() ==> (#[trigger] pasted_emails(lines)->Ok_0[i]).contains('@'),
    decreases lines.len(),
{
    if lines.len() > 0 {
        lemma_pasted_emails_hold_no_separators(lines.drop_first());
        let line = trim_seq(lines[0]);
        lemma_line_email_is_the_stretch_around_the_first_at(line);
        let rest = pasted_emails(lines.drop_first())->Ok_0;
        let all = pasted_emails(lines)->Ok_0;
        if line.len() > 0 {
            let e = first_with_at(split_seps(line))->0;
            assert(all == seq![e] + rest);
            assert forall|i: int| 0 < i < all.len() implies all[i] == rest[i - 1] by {}
            assert(all[0] == e);
        } else {
            assert(all == rest);
        }
    }
}

/// Whether a trimmed pasted line is accepted: it is blank, or it holds an `@` and the
/// stretch around its first `@` is a mailbox.
pub open spec fn line_reads(line: Seq<char>) -> bool {
    line.len() == 0 || (line.contains('@') && mailbox_parses(first_with_at(split_seps(line))->0))
}

/// Pasted text is read in full exactly when every line is accepted; otherwise the answer is
/// the first line, trimmed, that is not.
pub proof fn lemma_pasted_emails_refuse_the_first_bad_line(lines: Seq<Seq<char>>)
    ensures
        (pasted_emails(lines) is Ok) == (forall|i: int| 0 <= i < lines.len() ==> line_reads(trim_seq(#[trigger] lines[i]))),
        pasted_emails(lines) matches Err(l) ==> exists|i: int|
            0 <= i < lines.len() && l == trim_seq(#[trigger] lines[i]) && !line_reads(l) && forall|j: int|
                0 <= j < i ==> line_reads(trim_seq(#[trigger] lines[j])),
    decreases lines.len(),
{
    if lines.len() > 0 {
        let rest = lines.drop_first();
        lemma_pasted_emails_refuse_the_first_bad_line(rest);
        let line = trim_seq(lines[0]);
        lemma_line_email_is_the_stretch_around_the_first_at(line);
        assert forall|i: int| 0 < i < lines.len() implies #[trigger] lines[i] == rest[i - 1] by {}
        if line_reads(line) {
            if forall|i: int| 0 <= i < rest.len() ==> line_reads(trim_seq(#[trigger] rest[i])) {
                assert forall|i: int| 0 <= i < lines.len() implies line_reads(trim_seq(#[trigger] lines[i])) by {
                    if i > 0 {
                        assert(line_reads(trim_seq(rest[i - 1])));
                    }
                }
            } else {
                let i = choose|i: int| 0 <= i < rest.len() && !line_reads(trim_seq(#[trigger] rest[i]));
                assert(lines[i + 1] == rest[i]);
            }
            if pasted_emails(lines) is Err {
                let l = pasted_emails(lines)->Err_0;
                assert(pasted_emails(rest) == pasted_emails(lines));
                let i = choose|i: int|
                    0 <= i < rest.len() && l == trim_seq(#[trigger] rest[i]) && !line_reads(l) && forall|j: int|
                        0 <= j < i ==> line_reads(trim_seq(#[trigger] rest[j]));
                assert(lines[i + 1] == rest[i]);
                assert forall|j: int| 0 <= j < i + 1 implies line_reads(trim_seq(#[trigger] lines[j])) by {
                    if j > 0 {
                        assert(lines[j] == rest[j - 1]);
                    }
                }
            }
        } else {
            assert(pasted_emails(lines) == Err::<Seq<Seq<char>>, Seq<char>>(line));
        }
    }
}

/// Read emails pasted one per line, from formats like "Name <email>" or just "email";
/// blank lines are skipped. Returns the first line without a valid email on failure.
pub fn parse_pasted_emails(text: &str) -> (r: Result<Vec<String>, String>)
    ensures
        match r {
            Ok(es) => pasted_emails(split_seq(text@, '\n')) == Ok::<Seq<Seq<char>>, Seq<char>>(strings_seq(es@)),
            Err(line) => pasted_emails(split_seq(text@, '\n')) == Err::<Seq<Seq<char>>, Seq<char>>(line@),
        },
{
    let lines = split_char(text, '\n');
    let ghost ls = split_seq(text@, '\n');
    let mut emails: Vec<String> = Vec::new();
    let mut i: usize = 0;
    assert(ls.skip(0) =~= ls);
    while i < lines.len()
        invariant
            i <= lines@.len(),
            strings_seq(lines@) == ls,
            ls == split_seq(text@, '\n'),
            pasted_emails(ls) == match pasted_emails(ls.skip(i as int)) {
                Ok(es) => Ok(strings_seq(emails@) + es),
                Err(l) => Err::<Seq<Seq<char>>, Seq<char>>(l),
            },
        decreases lines@.len() - i,
    {
        proof {
            assert(ls.skip(i as int)[0] == lines@[i as int]@);
            assert(ls.skip(i as int).drop_first() =~= ls.skip(i + 1));
        }
        let line = trim(lines[i].as_str());
        if line.as_str().unicode_len() > 0 {
            match line_email(line.as_str()) {
                Some(email) => {
                    if is_mailbox(email.as_str()) {
                        let ghost old = emails@;
                        emails.push(email);
                        proof {
                            assert(strings_seq(emails@) =~= strings_seq(old).push(email@));
                            match pasted_emails(ls.skip(i + 1)) {
                                Ok(es) => {
                                    assert(strings_seq(old) + (seq![email@] + es) =~= strings_seq(emails@) + es);
                                },
                                Err(_) => {},
                            }
                        }
                    } else {
                        return Err(line);
                    }
                },
                None => {
                    return Err(line);
                },
            }
        }
        i = i + 1;
    }
    proof {
        assert(ls.skip(i as int).len() == 0);
        assert(strings_seq(emails@) + Seq::<Seq<char>>::empty() =~= strings_seq(emails@));
    }
    Ok(emails)
}

/// The message shown for a pasted line without a valid email.
pub fn invalid_line_message(line: &str) -> (message: String)
    ensures
        message@ == "Could not find a valid email address in line: '"@ + line@ + "'"@,
{
    let mut message = String::from_str("Could not find a valid email address in line: '");
    message.append(line);
    message.append("'");
    message
}

} // verus!
