//! Character-level text helpers shared by the request parser and the
//! response serializer, with their sequence-level models.

use vstd::prelude::*;
use vstd::string::StrSliceExecFns;
use vstd::string::StringExecFns;

verus! {

/// The whitespace characters recognized between header tokens.
pub open spec fn is_ws_char(c: char) -> bool {
    c == ' ' || c == '\t' || c == '\r' || c == '\n'
}

/// Whether `c` separates header tokens.
pub fn is_ws(c: char) -> (r: bool)
    ensures
        r == is_ws_char(c),
{
    c == ' ' || c == '\t' || c == '\r' || c == '\n'
}

/// The longest suffix of `s` made only of non-whitespace characters.
pub open spec fn suffix_nonws(s: Seq<char>) -> Seq<char>
    decreases s.len(),
{
    if s.len() == 0 || is_ws_char(s.last()) {
        Seq::empty()
    } else {
        suffix_nonws(s.drop_last()).push(s.last())
    }
}

/// The last whitespace-delimited token of `s`, empty when `s` holds none.
pub open spec fn spec_last_token(s: Seq<char>) -> Seq<char>
    decreases s.len(),
{
    if s.len() == 0 {
        Seq::empty()
    } else if is_ws_char(s.last()) {
        spec_last_token(s.drop_last())
    } else {
        suffix_nonws(s)
    }
}

/// The last whitespace-delimited token of `s`, the empty string when `s`
/// holds no token.
pub fn last_token(s: &str) -> (r: String)
    ensures
        r@ == spec_last_token(s@),
{
    let n = s.unicode_len();
    let ghost sv = s@;
    proof {
        assert(sv.take(n as int) =~= sv);
    }
    let mut e = n;
    while e > 0 && is_ws(s.get_char(e - 1))
        invariant
            e <= n,
            n == sv.len(),
            sv == s@,
            spec_last_token(sv.take(e as int)) == spec_last_token(sv),
        decreases e,
    {
        proof {
            assert(sv.take(e as int).drop_last() =~= sv.take(e - 1));
        }
        e = e - 1;
    }
    if e == 0 {
        proof {
            assert(sv.take(0) =~= Seq::<char>::empty());
        }
        return String::new();
    }
    let mut b = e;
    proof {
        assert(suffix_nonws(sv.take(e as int)) =~= suffix_nonws(sv.take(e as int)) + sv.subrange(
            e as int,
            e as int,
        ));
    }
    while b > 0 && !is_ws(s.get_char(b - 1))
        invariant
            b <= e <= n,
            n == sv.len(),
            sv == s@,
            suffix_nonws(sv.take(e as int)) == suffix_nonws(sv.take(b as int)) + sv.subrange(
                b as int,
                e as int,
            ),
        decreases b,
    {
        proof {
            assert(sv.take(b as int).drop_last() =~= sv.take(b - 1));
            assert(suffix_nonws(sv.take(b as int)) =~= suffix_nonws(sv.take(b - 1)).push(
                sv[b - 1],
            ));
            assert(suffix_nonws(sv.take(b - 1)).push(sv[b - 1]) + sv.subrange(b as int, e as int)
                =~= suffix_nonws(sv.take(b - 1)) + sv.subrange(b - 1, e as int));
        }
        b = b - 1;
    }
    proof {
        assert(suffix_nonws(sv.take(b as int)) =~= Seq::<char>::empty());
        assert(suffix_nonws(sv.take(e as int)) =~= sv.subrange(b as int, e as int));
    }
    let piece = s.substring_char(b, e);
    piece.to_owned()
}

/// `s` with every trailing occurrence of `c` removed.
pub open spec fn spec_trim_end(s: Seq<char>, c: char) -> Seq<char>
    decreases s.len(),
{
    if s.len() > 0 && s.last() == c {
        spec_trim_end(s.drop_last(), c)
    } else {
        s
    }
}

/// `s` with every leading occurrence of `c` removed.
pub open spec fn spec_trim_start(s: Seq<char>, c: char) -> Seq<char>
    decreases s.len(),
{
    if s.len() > 0 && s[0] == c {
        spec_trim_start(s.drop_first(), c)
    } else {
        s
    }
}

/// `s` with every trailing occurrence of `c` removed.
pub fn trim_end_char<'a>(s: &'a str, c: char) -> (r: &'a str)
    ensures
        r@ == spec_trim_end(s@, c),
{
    let n = s.unicode_len();
    let ghost sv = s@;
    proof {
        assert(sv.take(n as int) =~= sv);
    }
    let mut e = n;
    while e > 0 && s.get_char(e - 1) == c
        invariant
            e <= n,
            n == sv.len(),
            sv == s@,
            spec_trim_end(sv.take(e as int), c) == spec_trim_end(sv, c),
        decreases e,
    {
        proof {
            assert(sv.take(e as int).drop_last() =~= sv.take(e - 1));
        }
        e = e - 1;
    }
    proof {
        assert(spec_trim_end(sv.take(e as int), c) == sv.take(e as int));
    }
    s.substring_char(0, e)
}

/// `s` with every leading occurrence of `c` removed.
pub fn trim_start_char<'a>(s: &'a str, c: char) -> (r: &'a str)
    ensures
        r@ == spec_trim_start(s@, c),
{
    let n = s.unicode_len();
    let ghost sv = s@;
    proof {
        assert(sv.skip(0) =~= sv);
    }
    let mut b: usize = 0;
    while b < n && s.get_char(b) == c
        invariant
            b <= n,
            n == sv.len(),
            sv == s@,
            spec_trim_start(sv.skip(b as int), c) == spec_trim_start(sv, c),
        decreases n - b,
    {
        proof {
            assert(sv.skip(b as int).drop_first() =~= sv.skip(b + 1));
        }
        b = b + 1;
    }
    proof {
        assert(spec_trim_start(sv.skip(b as int), c) == sv.skip(b as int));
        assert(sv.skip(b as int) =~= sv.subrange(b as int, n as int));
    }
    s.substring_char(b, n)
}

/// The first index at or after `from` holding `c`, if any.
pub fn find_char(s: &str, from: usize, c: char) -> (r: Option<usize>)
    requires
        from <= s@.len(),
    ensures
        match r {
            Some(i) => from <= i < s@.len() && s@[i as int] == c && forall|k: int|
                from <= k < i ==> s@[k] != c,
            None => forall|k: int| from <= k < s@.len() ==> s@[k] != c,
        },
{
    let n = s.unicode_len();
    let mut i = from;
    while i < n
        invariant
            from <= i <= n,
            n == s@.len(),
            forall|k: int| from <= k < i ==> s@[k] != c,
        decreases n - i,
    {
        if s.get_char(i) == c {
            return Some(i);
        }
        i = i + 1;
    }
    None
}

/// `needle` occurs in `s` starting at index `i`.
pub open spec fn spec_contains_at(s: Seq<char>, i: int, needle: Seq<char>) -> bool {
    0 <= i && i + needle.len() <= s.len() && s.subrange(i, i + needle.len()) == needle
}

/// `needle` occurs somewhere in `s`.
pub open spec fn spec_contains(s: Seq<char>, needle: Seq<char>) -> bool {
    exists|i: int| spec_contains_at(s, i, needle)
}

/// Whether `needle` occurs in `s` starting at index `i`.
fn matches_at(s: &str, i: usize, needle: &str) -> (r: bool)
    requires
        i + needle@.len() <= s@.len(),
    ensures
        r == spec_contains_at(s@, i as int, needle@),
{
    let n = s.unicode_len();
    let m = needle.unicode_len();
    let mut j: usize = 0;
    while j < m
        invariant
            j <= m,
            m == needle@.len(),
            n == s@.len(),
            i + m <= n,
            forall|k: int| 0 <= k < j ==> s@[i + k] == needle@[k],
        decreases m - j,
    {
        if s.get_char(i + j) != needle.get_char(j) {
            proof {
                assert(s@.subrange(i as int, i + m) != needle@) by {
                    assert(s@.subrange(i as int, i + m)[j as int] != needle@[j as int]);
                }
            }
            return false;
        }
        j = j + 1;
    }
    proof {
        assert(s@.subrange(i as int, i + m) =~= needle@);
    }
    true
}

/// Whether `needle` occurs anywhere in `s` as a contiguous run.
pub fn contains_str(s: &str, needle: &str) -> (r: bool)
    ensures
        r == spec_contains(s@, needle@),
{
    let n = s.unicode_len();
    let m = needle.unicode_len();
    if m > n {
        proof {
            assert(forall|i: int| !spec_contains_at(s@, i, needle@));
        }
        return false;
    }
    if m == 0 {
        proof {
            assert(s@.subrange(0, 0) =~= needle@);
            assert(spec_contains_at(s@, 0, needle@));
        }
        return true;
    }
    let mut i: usize = 0;
    while i <= n - m
        invariant
            i <= n - m + 1,
            1 <= m <= n,
            n == s@.len(),
            m == needle@.len(),
            forall|k: int| 0 <= k < i ==> !spec_contains_at(s@, k, needle@),
        decreases n - i,
    {
        if matches_at(s, i, needle) {
            return true;
        }
        i = i + 1;
    }
    proof {
        assert(forall|k: int| k > n - m ==> !spec_contains_at(s@, k, needle@));
    }
    false
}

} // verus!

verus! {

/// The whitespace-delimited tokens of `s`, in order.
pub open spec fn spec_ws_tokens(s: Seq<char>) -> Seq<Seq<char>>
    decreases s.len(),
{
    if s.len() == 0 {
        Seq::empty()
    } else if is_ws_char(s[0]) {
        spec_ws_tokens(s.drop_first())
    } else {
        let rest = spec_ws_tokens(s.drop_first());
        if s.len() > 1 && !is_ws_char(s[1]) {
            seq![seq![s[0]] + rest[0]] + rest.drop_first()
        } else {
            seq![seq![s[0]]] + rest
        }
    }
}

proof fn lemma_tokens_skip_ws(s: Seq<char>, i: int)
    requires
        0 <= i < s.len(),
        is_ws_char(s[i]),
    ensures
        spec_ws_tokens(s.skip(i)) == spec_ws_tokens(s.skip(i + 1)),
{
    assert(s.skip(i).drop_first() =~= s.skip(i + 1));
}

proof fn lemma_tokens_take_token(s: Seq<char>, i: int, j: int)
    requires
        0 <= i < j <= s.len(),
        forall|k: int| i <= k < j ==> !is_ws_char(s[k]),
        j == s.len() || is_ws_char(s[j]),
    ensures
        spec_ws_tokens(s.skip(i)) == seq![s.subrange(i, j)] + spec_ws_tokens(s.skip(j)),
    decreases j - i,
{
    let t = s.skip(i);
    assert(t[0] == s[i]);
    assert(t.drop_first() =~= s.skip(i + 1));
    if i + 1 == j {
        if j == s.len() {
            assert(seq![t[0]] =~= s.subrange(i, j));
            assert(spec_ws_tokens(t) =~~= seq![s.subrange(i, j)] + spec_ws_tokens(s.skip(j)));
        } else {
            assert(t.len() > 1 && is_ws_char(t[1]));
            assert(seq![t[0]] =~= s.subrange(i, j));
            assert(spec_ws_tokens(t) =~~= seq![s.subrange(i, j)] + spec_ws_tokens(s.skip(j)));
        }
    } else {
        assert(!is_ws_char(s[i + 1]));
        assert(t.len() > 1 && !is_ws_char(t[1]));
        lemma_tokens_take_token(s, i + 1, j);
        let rest = spec_ws_tokens(s.skip(i + 1));
        assert(rest[0] == s.subrange(i + 1, j));
        assert(rest.drop_first() =~= spec_ws_tokens(s.skip(j)));
        assert(seq![s[i]] + s.subrange(i + 1, j) =~= s.subrange(i, j));
        assert(spec_ws_tokens(t) =~~= seq![s.subrange(i, j)] + spec_ws_tokens(s.skip(j)));
    }
}

/// The whitespace-delimited tokens of `s`, in order.
pub fn ws_tokens(s: &str) -> (r: Vec<String>)
    ensures
        r.deep_view() == spec_ws_tokens(s@),
{
    let n = s.unicode_len();
    let ghost sv = s@;
    let mut out: Vec<String> = Vec::new();
    proof {
        assert(sv.skip(0) =~= sv);
        assert(out.deep_view() + spec_ws_tokens(sv) =~~= spec_ws_tokens(sv));
    }
    let mut i: usize = 0;
    while i < n
        invariant
            i <= n,
            n == sv.len(),
            sv == s@,
            out.deep_view() + spec_ws_tokens(sv.skip(i as int)) == spec_ws_tokens(sv),
        decreases n - i,
    {
        if is_ws(s.get_char(i)) {
            proof {
                lemma_tokens_skip_ws(sv, i as int);
            }
            i = i + 1;
        } else {
            let mut j = i + 1;
            while j < n && !is_ws(s.get_char(j))
                invariant
                    i < j <= n,
                    n == sv.len(),
                    sv == s@,
                    forall|k: int| i <= k < j ==> !is_ws_char(sv[k]),
                decreases n - j,
            {
                j = j + 1;
            }
            let tok = s.substring_char(i, j).to_owned();
            proof {
                lemma_tokens_take_token(sv, i as int, j as int);
            }
            let ghost old_out = out.deep_view();
            out.push(tok);
            proof {
                assert(out.deep_view() =~= old_out.push(tok@));
                assert(out.deep_view() + spec_ws_tokens(sv.skip(j as int)) =~~= spec_ws_tokens(
                    sv,
                ));
            }
            i = j;
        }
    }
    proof {
        assert(sv.skip(n as int) =~= Seq::<char>::empty());
        assert(out.deep_view() =~~= spec_ws_tokens(sv));
    }
    out
}

/// The pieces of `s` split at every occurrence of `sep`, empty pieces kept.
pub open spec fn spec_split(s: Seq<char>, sep: char) -> Seq<Seq<char>>
    decreases s.len(),
{
    if s.len() == 0 {
        seq![Seq::<char>::empty()]
    } else if s[0] == sep {
        seq![Seq::<char>::empty()] + spec_split(s.drop_first(), sep)
    } else {
        let rest = spec_split(s.drop_first(), sep);
        seq![seq![s[0]] + rest[0]] + rest.drop_first()
    }
}

proof fn lemma_split_len_pos(s: Seq<char>, sep: char)
    ensures
        spec_split(s, sep).len() >= 1,
    decreases s.len(),
{
    if s.len() > 0 {
        lemma_split_len_pos(s.drop_first(), sep);
    }
}

proof fn lemma_split_no_sep(s: Seq<char>, sep: char)
    requires
        forall|k: int| 0 <= k < s.len() ==> s[k] != sep,
    ensures
        spec_split(s, sep) == seq![s],
    decreases s.len(),
{
    if s.len() == 0 {
        assert(spec_split(s, sep) =~~= seq![s]);
    } else {
        lemma_split_no_sep(s.drop_first(), sep);
        assert(seq![s[0]] + s.drop_first() =~= s);
        assert(spec_split(s, sep) =~~= seq![s]);
    }
}

proof fn lemma_split_at_first(s: Seq<char>, sep: char, i: int)
    requires
        0 <= i < s.len(),
        s[i] == sep,
        forall|k: int| 0 <= k < i ==> s[k] != sep,
    ensures
        spec_split(s, sep) == seq![s.subrange(0, i)] + spec_split(s.skip(i + 1), sep),
    decreases i,
{
    if i == 0 {
        assert(s.subrange(0, 0) =~= Seq::<char>::empty());
        assert(s.drop_first() =~= s.skip(1));
        assert(spec_split(s, sep) =~~= seq![s.subrange(0, i)] + spec_split(s.skip(i + 1), sep));
    } else {
        let d = s.drop_first();
        assert(forall|k: int| 0 <= k < i - 1 ==> d[k] != sep);
        lemma_split_at_first(d, sep, i - 1);
        lemma_split_len_pos(d.skip(i), sep);
        assert(d.skip(i) =~= s.skip(i + 1));
        let rest = spec_split(d, sep);
        assert(rest[0] == d.subrange(0, i - 1));
        assert(seq![s[0]] + d.subrange(0, i - 1) =~= s.subrange(0, i));
        assert(rest.drop_first() =~= spec_split(s.skip(i + 1), sep));
        assert(spec_split(s, sep) =~~= seq![s.subrange(0, i)] + spec_split(s.skip(i + 1), sep));
    }
}

/// The method and target tokens of a request line, present exactly when
/// splitting the line on single spaces yields three tokens.
pub fn split_request_line(s: &str) -> (r: Option<(String, String)>)
    ensures
        match r {
            Some(p) => spec_split(s@, ' ').len() == 3 && p.0@ == spec_split(s@, ' ')[0] && p.1@
                == spec_split(s@, ' ')[1],
            None => spec_split(s@, ' ').len() != 3,
        },
{
    let n = s.unicode_len();
    let ghost sv = s@;
    let i1 = match find_char(s, 0, ' ') {
        Some(i) => i,
        None => {
            proof {
                lemma_split_no_sep(sv, ' ');
            }
            return None;
        },
    };
    let i2 = match find_char(s, i1 + 1, ' ') {
        Some(i) => i,
        None => {
            proof {
                lemma_split_at_first(sv, ' ', i1 as int);
                assert(forall|k: int|
                    0 <= k < sv.skip(i1 + 1).len() ==> #[trigger] sv.skip(i1 + 1)[k] != ' ');
                lemma_split_no_sep(sv.skip(i1 + 1), ' ');
            }
            return None;
        },
    };
    match find_char(s, i2 + 1, ' ') {
        Some(_) => {
            proof {
                let t1 = sv.skip(i1 + 1);
                lemma_split_at_first(sv, ' ', i1 as int);
                assert(forall|k: int| 0 <= k < i2 - i1 - 1 ==> t1[k] != ' ');
                assert(t1[i2 - i1 - 1] == ' ');
                lemma_split_at_first(t1, ' ', i2 - i1 - 1);
                let t2 = t1.skip(i2 - i1);
                assert(t2 =~= sv.skip(i2 + 1));
                let i3 = choose|k: int| i2 + 1 <= k < sv.len() && sv[k] == ' ';
                assert(exists|k: int| 0 <= k < t2.len() && t2[k] == ' ') by {
                    assert(t2[i3 - i2 - 1] == ' ');
                }
                let j3 = choose|k: int| 0 <= k < t2.len() && t2[k] == ' ';
                let first3 = choose|k: int|
                    0 <= k < t2.len() && t2[k] == ' ' && forall|l: int| 0 <= l < k ==> t2[l] != ' ';
                assert(exists|k: int|
                    0 <= k < t2.len() && t2[k] == ' ' && forall|l: int|
                        0 <= l < k ==> t2[l] != ' ') by {
                    lemma_first_occurrence(t2, ' ', j3);
                }
                lemma_split_at_first(t2, ' ', first3);
                lemma_split_len_pos(t2.skip(first3 + 1), ' ');
            }
            None
        },
        None => {
            let a = s.substring_char(0, i1).to_owned();
            let b = s.substring_char(i1 + 1, i2).to_owned();
            proof {
                let t1 = sv.skip(i1 + 1);
                lemma_split_at_first(sv, ' ', i1 as int);
                assert(forall|k: int| 0 <= k < i2 - i1 - 1 ==> t1[k] != ' ');
                assert(t1[i2 - i1 - 1] == ' ');
                lemma_split_at_first(t1, ' ', i2 - i1 - 1);
                let t2 = t1.skip(i2 - i1);
                assert(t2 =~= sv.skip(i2 + 1));
                assert(forall|k: int| 0 <= k < t2.len() ==> t2[k] != ' ');
                lemma_split_no_sep(t2, ' ');
                assert(t1.subrange(0, i2 - i1 - 1) =~= sv.subrange(i1 + 1, i2 as int));
                assert(spec_split(sv, ' ').len() == 3);
                assert(spec_split(sv, ' ')[0] == sv.subrange(0, i1 as int));
                assert(spec_split(sv, ' ')[1] == sv.subrange(i1 + 1, i2 as int));
            }
            Some((a, b))
        },
    }
}

proof fn lemma_first_occurrence(s: Seq<char>, c: char, witness: int)
    requires
        0 <= witness < s.len(),
        s[witness] == c,
    ensures
        exists|k: int|
            0 <= k < s.len() && s[k] == c && forall|l: int| 0 <= l < k ==> s[l] != c,
    decreases witness,
{
    if forall|l: int| 0 <= l < witness ==> s[l] != c {
        assert(0 <= witness < s.len() && s[witness] == c && forall|l: int|
            0 <= l < witness ==> s[l] != c);
    } else {
        let w2 = choose|l: int| 0 <= l < witness && s[l] == c;
        lemma_first_occurrence(s, c, w2);
    }
}

} // verus!

verus! {

/// The query value carried by a query string: the second `=`-separated
/// piece, or the sentinel `none` when there is no second piece.
pub open spec fn spec_query_value(q: Seq<char>) -> Seq<char> {
    let pieces = spec_split(q, '=');
    if pieces.len() >= 2 {
        pieces[1]
    } else {
        "none"@
    }
}

/// Extract the query value of a query string: the second `=`-separated
/// piece, or the sentinel `none`.
pub fn query_value(s: &str) -> (r: String)
    ensures
        r@ == spec_query_value(s@),
{
    let n = s.unicode_len();
    let ghost sv = s@;
    let i1 = match find_char(s, 0, '=') {
        Some(i) => i,
        None => {
            proof {
                lemma_split_no_sep(sv, '=');
            }
            return String::from_str("none");
        },
    };
    proof {
        lemma_split_at_first(sv, '=', i1 as int);
        lemma_split_len_pos(sv.skip(i1 + 1), '=');
    }
    match find_char(s, i1 + 1, '=') {
        Some(i2) => {
            let piece = s.substring_char(i1 + 1, i2);
            proof {
                let t1 = sv.skip(i1 + 1);
                assert(forall|k: int| 0 <= k < i2 - i1 - 1 ==> #[trigger] t1[k] != '=');
                assert(t1[i2 - i1 - 1] == '=');
                lemma_split_at_first(t1, '=', i2 - i1 - 1);
                assert(t1.subrange(0, i2 - i1 - 1) =~= sv.subrange(i1 + 1, i2 as int));
                lemma_split_len_pos(t1.skip(i2 - i1), '=');
            }
            piece.to_owned()
        },
        None => {
            let piece = s.substring_char(i1 + 1, n);
            proof {
                let t1 = sv.skip(i1 + 1);
                assert(forall|k: int| 0 <= k < t1.len() ==> #[trigger] t1[k] != '=');
                lemma_split_no_sep(t1, '=');
                assert(t1 =~= sv.subrange(i1 + 1, n as int));
            }
            piece.to_owned()
        },
    }
}

/// `c` is a decimal digit.
pub open spec fn is_digit_char(c: char) -> bool {
    ('0' as u32) <= (c as u32) && (c as u32) <= ('9' as u32)
}

/// The numeric value of a digit character.
pub open spec fn digit_val(c: char) -> int {
    (c as u32) - ('0' as u32)
}

/// Every character of `s` is a decimal digit.
pub open spec fn spec_all_digits(s: Seq<char>) -> bool {
    forall|i: int| 0 <= i < s.len() ==> is_digit_char(s[i])
}

/// The number denoted by a sequence of decimal digits, most significant
/// first.
pub open spec fn spec_digits_val(s: Seq<char>) -> int
    decreases s.len(),
{
    if s.len() == 0 {
        0
    } else {
        spec_digits_val(s.drop_last()) * 10 + digit_val(s.last())
    }
}

proof fn lemma_digits_val_nonneg(s: Seq<char>)
    requires
        spec_all_digits(s),
    ensures
        spec_digits_val(s) >= 0,
    decreases s.len(),
{
    if s.len() > 0 {
        assert(spec_all_digits(s.drop_last()));
        lemma_digits_val_nonneg(s.drop_last());
    }
}

proof fn lemma_digits_val_prefix(s: Seq<char>, i: int)
    requires
        spec_all_digits(s),
        0 <= i <= s.len(),
    ensures
        spec_digits_val(s) >= spec_digits_val(s.take(i)),
    decreases s.len() - i,
{
    if i == s.len() {
        assert(s.take(i) =~= s);
    } else {
        assert(s.take(i + 1).drop_last() =~= s.take(i));
        assert(s.take(i + 1).last() == s[i]);
        assert(spec_all_digits(s.take(i)));
        lemma_digits_val_nonneg(s.take(i));
        lemma_digits_val_prefix(s, i + 1);
    }
}

/// Parse a sequence of decimal digits as an unsigned machine integer;
/// `None` exactly when the text is empty, holds a non-digit, or denotes a
/// number too large for `usize`.
pub fn parse_usize(s: &str) -> (r: Option<usize>)
    ensures
        match r {
            Some(v) => s@.len() > 0 && spec_all_digits(s@) && v == spec_digits_val(s@),
            None => s@.len() == 0 || !spec_all_digits(s@) || spec_digits_val(s@) > usize::MAX,
        },
{
    let n = s.unicode_len();
    let ghost sv = s@;
    if n == 0 {
        return None;
    }
    let mut acc: usize = 0;
    let mut i: usize = 0;
    proof {
        assert(sv.take(0) =~= Seq::<char>::empty());
    }
    while i < n
        invariant
            i <= n,
            n == sv.len(),
            sv == s@,
            spec_all_digits(sv.take(i as int)),
            acc == spec_digits_val(sv.take(i as int)),
        decreases n - i,
    {
        let c = s.get_char(i);
        let cv = c as u32;
        if cv < 48 || cv > 57 {
            proof {
                assert(('0' as u32) == 48 && ('9' as u32) == 57);
                assert(!is_digit_char(sv[i as int]));
            }
            return None;
        }
        let d = (cv - 48) as usize;
        proof {
            assert(sv.take(i + 1).drop_last() =~= sv.take(i as int));
            assert(sv.take(i + 1).last() == sv[i as int]);
            assert(('0' as u32) == 48);
            assert(d == digit_val(sv[i as int]));
            assert(spec_digits_val(sv.take(i + 1)) == acc * 10 + d);
        }
        let acc10 = match acc.checked_mul(10) {
            Some(v) => v,
            None => {
                proof {
                    if spec_all_digits(sv) {
                        lemma_digits_val_prefix(sv, i + 1);
                    }
                }
                return None;
            },
        };
        let acc2 = match acc10.checked_add(d) {
            Some(v) => v,
            None => {
                proof {
                    if spec_all_digits(sv) {
                        lemma_digits_val_prefix(sv, i + 1);
                    }
                }
                return None;
            },
        };
        acc = acc2;
        i = i + 1;
    }
    proof {
        assert(sv.take(n as int) =~= sv);
    }
    Some(acc)
}

/// The digit character of a value below ten.
pub open spec fn spec_digit_char(d: int) -> char {
    if d == 0 {
        '0'
    } else if d == 1 {
        '1'
    } else if d == 2 {
        '2'
    } else if d == 3 {
        '3'
    } else if d == 4 {
        '4'
    } else if d == 5 {
        '5'
    } else if d == 6 {
        '6'
    } else if d == 7 {
        '7'
    } else if d == 8 {
        '8'
    } else {
        '9'
    }
}

/// The decimal rendering of a nonnegative number, most significant digit
/// first and without leading zeros (a lone zero for zero).
pub open spec fn spec_dec_chars(n: int) -> Seq<char>
    decreases n,
{
    if n < 10 {
        seq![spec_digit_char(n)]
    } else {
        spec_dec_chars(n / 10).push(spec_digit_char(n % 10))
    }
}

/// The wire form of one digit.
fn digit_lit(d: usize) -> (r: &'static str)
    requires
        d < 10,
    ensures
        r@ == seq![spec_digit_char(d as int)],
{
    proof {
        reveal_strlit("0");
        reveal_strlit("1");
        reveal_strlit("2");
        reveal_strlit("3");
        reveal_strlit("4");
        reveal_strlit("5");
        reveal_strlit("6");
        reveal_strlit("7");
        reveal_strlit("8");
        reveal_strlit("9");
    }
    let r = if d == 0 {
        "0"
    } else if d == 1 {
        "1"
    } else if d == 2 {
        "2"
    } else if d == 3 {
        "3"
    } else if d == 4 {
        "4"
    } else if d == 5 {
        "5"
    } else if d == 6 {
        "6"
    } else if d == 7 {
        "7"
    } else if d == 8 {
        "8"
    } else {
        "9"
    };
    proof {
        assert(r@ =~= seq![spec_digit_char(d as int)]);
    }
    r
}

/// Render a number in decimal, most significant digit first.
pub fn usize_to_string(n: usize) -> (r: String)
    ensures
        r@ == spec_dec_chars(n as int),
    decreases n,
{
    if n < 10 {
        digit_lit(n).to_owned()
    } else {
        let mut prefix = usize_to_string(n / 10);
        let last = digit_lit(n % 10);
        prefix.append(last);
        proof {
            assert(prefix@ =~= spec_dec_chars(n as int));
        }
        prefix
    }
}

} // verus!
