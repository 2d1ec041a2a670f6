//! Small string utilities for reading configured upstream address lists.
//!
//! A configured list is one string of comma-separated addresses; it is cut
//! at every comma and each piece is stripped of the ASCII whitespace around
//! it (space, tab, carriage return, line feed).

use vstd::prelude::*;
use vstd::string::StrSliceExecFns;

verus! {

/// The whitespace stripped from the ends of a piece.
pub open spec fn is_space(c: char) -> bool {
    c == ' ' || c == '\t' || c == '\n' || c == '\r'
}

/// A sequence with its leading whitespace dropped.
pub open spec fn trim_left(s: Seq<char>) -> Seq<char>
    decreases s.len(),
{
    if s.len() > 0 && is_space(s[0]) {
        trim_left(s.drop_first())
    } else {
        s
    }
}

/// A sequence with its trailing whitespace dropped.
pub open spec fn trim_right(s: Seq<char>) -> Seq<char>
    decreases s.len(),
{
    if s.len() > 0 && is_space(s.last()) {
        trim_right(s.drop_last())
    } else {
        s
    }
}

/// A sequence with the whitespace around it dropped.
pub open spec fn spec_trim(s: Seq<char>) -> Seq<char> {
    trim_right(trim_left(s))
}

/// The pieces of a sequence cut at every comma: always one more piece than
/// there are commas, and empty pieces are kept.
pub open spec fn split_commas(s: Seq<char>) -> Seq<Seq<char>>
    decreases s.len(),
{
    if s.len() == 0 {
        seq![Seq::empty()]
    } else if s[0] == ',' {
        seq![Seq::<char>::empty()] + split_commas(s.drop_first())
    } else {
        let rest = split_commas(s.drop_first());
        seq![seq![s[0]] + rest[0]] + rest.drop_first()
    }
}

/// A comma-free sequence is one piece.
proof fn lemma_split_no_comma(s: Seq<char>)
    requires
        forall|j: int| 0 <= j < s.len() ==> s[j] != ',',
    ensures
        split_commas(s) == seq![s],
    decreases s.len(),
{
    if s.len() == 0 {
        assert(s =~= Seq::<char>::empty());
        assert(split_commas(s) =~= seq![s]);
    } else {
        assert(forall|j: int| 0 <= j < s.drop_first().len() ==> s.drop_first()[j] == s[j + 1]);
        lemma_split_no_comma(s.drop_first());
        let rest = split_commas(s.drop_first());
        assert(rest[0] == s.drop_first());
        assert(seq![s[0]] + s.drop_first() =~= s);
        assert(rest.drop_first() =~= Seq::<Seq<char>>::empty());
        assert(split_commas(s) =~= seq![s]);
    }
}

/// Cutting at the first comma: the piece before it, then the pieces of what
/// follows it.
proof fn lemma_split_at_first_comma(s: Seq<char>, k: int)
    requires
        0 <= k < s.len(),
        s[k] == ',',
        forall|j: int| 0 <= j < k ==> s[j] != ',',
    ensures
        split_commas(s) == seq![s.take(k)] + split_commas(s.skip(k + 1)),
    decreases k,
{
    if k == 0 {
        assert(s.take(0) =~= Seq::<char>::empty());
        assert(s.skip(1) =~= s.drop_first());
        assert(split_commas(s) =~= seq![s.take(0)] + split_commas(s.skip(1)));
    } else {
        assert(forall|j: int| 0 <= j < s.drop_first().len() ==> s.drop_first()[j] == s[j + 1]);
        lemma_split_at_first_comma(s.drop_first(), k - 1);
        let rest = split_commas(s.drop_first());
        assert(rest == seq![s.drop_first().take(k - 1)] + split_commas(s.drop_first().skip(k)));
        assert(rest[0] == s.drop_first().take(k - 1));
        assert(seq![s[0]] + s.drop_first().take(k - 1) =~= s.take(k));
        assert(rest.drop_first() =~= split_commas(s.drop_first().skip(k)));
        assert(s.drop_first().skip(k) =~= s.skip(k + 1));
        assert(split_commas(s) =~= seq![s.take(k)] + split_commas(s.skip(k + 1)));
    }
}

/// Tells whether a character counts as whitespace here.
fn is_space_char(c: char) -> (r: bool)
    ensures
        r == is_space(c),
{
    c == ' ' || c == '\t' || c == '\n' || c == '\r'
}

/// Strips the whitespace around a piece.
fn trim_str(s: &str) -> (r: String)
    ensures
        r@ == spec_trim(s@),
{
    let n = s.unicode_len();
    let mut a: usize = 0;
    proof {
        assert(s@.skip(0) =~= s@);
    }
    while a < n && is_space_char(s.get_char(a))
        invariant
            0 <= a <= n == s@.len(),
            trim_left(s@) == trim_left(s@.skip(a as int)),
        decreases n - a,
    {
        proof {
            assert(s@.skip(a as int)[0] == s@[a as int]);
            assert(s@.skip(a as int).drop_first() =~= s@.skip(a + 1));
        }
        a = a + 1;
    }
    proof {
        if a == n {
            assert(s@.skip(a as int) =~= Seq::<char>::empty());
        }
        assert(trim_left(s@) == s@.skip(a as int));
    }
    let ghost t = s@.skip(a as int);
    let mut b: usize = n;
    while b > a && is_space_char(s.get_char(b - 1))
        invariant
            0 <= a <= b <= n == s@.len(),
            t == s@.skip(a as int),
            trim_right(t) == trim_right(s@.subrange(a as int, b as int)),
        decreases b,
    {
        proof {
            let piece = s@.subrange(a as int, b as int);
            assert(piece.last() == s@[b - 1]);
            assert(piece.drop_last() =~= s@.subrange(a as int, b - 1));
        }
        b = b - 1;
    }
    proof {
        assert(t =~= s@.subrange(a as int, n as int));
        if b == a {
            assert(s@.subrange(a as int, b as int) =~= Seq::<char>::empty());
        }
        assert(trim_right(s@.subrange(a as int, b as int)) == s@.subrange(a as int, b as int));
    }
    s.substring_char(a, b).to_owned()
}

/// Cuts a comma-separated list into its pieces, each stripped of the
/// whitespace around it; empty pieces are kept, and an empty input yields
/// one empty piece.
pub fn split_string(ip_list_string: String) -> (r: Vec<String>)
    ensures
        r.deep_view() == split_commas(ip_list_string@).map_values(|p: Seq<char>| spec_trim(p)),
{
    let s = ip_list_string.as_str();
    let n = s.unicode_len();
    let ghost goal = split_commas(s@).map_values(|p: Seq<char>| spec_trim(p));
    let mut out: Vec<String> = Vec::new();
    let mut start: usize = 0;
    let mut i: usize = 0;
    proof {
        assert(s@.skip(0) =~= s@);
        assert(out.deep_view() =~= Seq::<Seq<char>>::empty());
        assert(out.deep_view() + split_commas(s@.skip(0)).map_values(|p: Seq<char>| spec_trim(p))
            =~= goal);
    }
    while i < n
        invariant
            0 <= start <= i <= n == s@.len(),
            goal == split_commas(s@).map_values(|p: Seq<char>| spec_trim(p)),
            forall|j: int| start <= j < i ==> s@[j] != ',',
            out.deep_view() + split_commas(s@.skip(start as int)).map_values(
                |p: Seq<char>| spec_trim(p),
            ) == goal,
        decreases n - i,
    {
        if s.get_char(i) == ',' {
            let ghost out0 = out.deep_view();
            let piece = trim_str(s.substring_char(start, i));
            out.push(piece);
            proof {
                let tail = s@.skip(start as int);
                assert(forall|j: int| 0 <= j < tail.len() ==> tail[j] == s@[j + start]);
                lemma_split_at_first_comma(tail, i - start);
                assert(tail.take(i - start) =~= s@.subrange(start as int, i as int));
                assert(tail.skip(i - start + 1) =~= s@.skip(i + 1));
                assert(out.deep_view() =~= out0.push(spec_trim(s@.subrange(
                    start as int,
                    i as int,
                ))));
                assert(out.deep_view() + split_commas(s@.skip(i + 1)).map_values(
                    |p: Seq<char>| spec_trim(p),
                ) =~= out0 + split_commas(tail).map_values(|p: Seq<char>| spec_trim(p)));
            }
            start = i + 1;
        }
        i = i + 1;
    }
    let ghost out0 = out.deep_view();
    let piece = trim_str(s.substring_char(start, n));
    out.push(piece);
    proof {
        let tail = s@.skip(start as int);
        assert(forall|j: int| 0 <= j < tail.len() ==> tail[j] == s@[j + start]);
        lemma_split_no_comma(tail);
        assert(tail =~= s@.subrange(start as int, n as int));
        assert(out.deep_view() =~= out0.push(spec_trim(tail)));
        assert(split_commas(tail).map_values(|p: Seq<char>| spec_trim(p)) =~= seq![spec_trim(
            tail,
        )]);
        assert(out.deep_view() =~= goal);
    }
    out
}

} // verus!
