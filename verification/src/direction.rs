//! The direction of a punch: clocking in or clocking out.

use vstd::prelude::*;

verus! {

/// Whether a punch starts or ends a work session.
#[derive(Copy, Clone, Debug, PartialEq, Eq, Structural, Hash)]
pub enum Direction {
    In,
    Out,
}

/// Characters stripped from either end of a ledger field.
pub open spec fn is_space_char(c: char) -> bool {
    c == ' ' || c == '\t' || c == '\r' || c == '\n'
}

/// Drop leading whitespace.
pub open spec fn trim_front(s: Seq<char>) -> Seq<char>
    decreases s.len(),
{
    if s.len() > 0 && is_space_char(s[0]) {
        trim_front(s.drop_first())
    } else {
        s
    }
}

/// Drop trailing whitespace.
pub open spec fn trim_back(s: Seq<char>) -> Seq<char>
    decreases s.len(),
{
    if s.len() > 0 && is_space_char(s[s.len() - 1]) {
        trim_back(s.drop_last())
    } else {
        s
    }
}

/// Drop whitespace from both ends.
pub open spec fn spec_trim(s: Seq<char>) -> Seq<char> {
    trim_back(trim_front(s))
}

/// The trimmed text spells `in`, in any letter case.
pub open spec fn matches_in(s: Seq<char>) -> bool {
    let t = spec_trim(s);
    t.len() == 2 && (t[0] == 'i' || t[0] == 'I') && (t[1] == 'n' || t[1] == 'N')
}

/// The trimmed text spells `out`, in any letter case.
pub open spec fn matches_out(s: Seq<char>) -> bool {
    let t = spec_trim(s);
    t.len() == 3 && (t[0] == 'o' || t[0] == 'O') && (t[1] == 'u' || t[1] == 'U') && (t[2] == 't'
        || t[2] == 'T')
}

proof fn lemma_trim_front_skip(s: Seq<char>, i: int)
    requires
        0 <= i <= s.len(),
        forall|k: int| 0 <= k < i ==> is_space_char(s[k]),
    ensures
        trim_front(s) == trim_front(s.skip(i)),
    decreases i,
{
    if i > 0 {
        assert(s.skip(0) =~= s);
        assert(s.drop_first() =~= s.skip(1));
        lemma_trim_front_skip(s.drop_first(), i - 1);
        assert(s.drop_first().skip(i - 1) =~= s.skip(i));
    } else {
        assert(s.skip(0) =~= s);
    }
}

proof fn lemma_trim_back_take(s: Seq<char>, j: int)
    requires
        0 <= j <= s.len(),
        forall|k: int| j <= k < s.len() ==> is_space_char(s[k]),
    ensures
        trim_back(s) == trim_back(s.take(j)),
    decreases s.len() - j,
{
    if j < s.len() {
        assert(s.take(s.len() as int) =~= s);
        assert(s.drop_last() =~= s.take(s.len() - 1));
        lemma_trim_back_take(s.drop_last(), j);
        assert(s.drop_last().take(j) =~= s.take(j));
    } else {
        assert(s.take(s.len() as int) =~= s);
    }
}

/// When the first `i` characters and the characters from `j` on are
/// whitespace, and the ends at `i` and `j - 1` are not, trimming
/// yields exactly the middle.
proof fn lemma_trim_exact(s: Seq<char>, i: int, j: int)
    requires
        0 <= i <= j <= s.len(),
        forall|k: int| 0 <= k < i ==> is_space_char(s[k]),
        forall|k: int| j <= k < s.len() ==> is_space_char(s[k]),
        i == j ==> i == s.len(),
        i == j || !is_space_char(s[i]),
        i == j || !is_space_char(s[j - 1]),
    ensures
        spec_trim(s) == s.subrange(i, j),
    decreases s.len(),
{
    lemma_trim_front_skip(s, i);
    let m = s.skip(i);
    assert(trim_front(m) =~= m);
    lemma_trim_back_take(m, j - i);
    let c = m.take(j - i);
    assert(trim_back(c) =~= c);
    assert(c =~= s.subrange(i, j));
}

impl Direction {
    /// Decode a ledger direction field: whitespace-trimmed,
    /// case-insensitive `in` or `out`.
    pub fn decode(s: &str) -> (r: Option<Direction>)
        ensures
            r == Some(Direction::In) <==> matches_in(s@),
            r == Some(Direction::Out) <==> matches_out(s@),
            r is None <==> !matches_in(s@) && !matches_out(s@),
    {
        let n = s.unicode_len();
        let mut i: usize = 0;
        loop
            invariant
                0 <= i <= n == s@.len(),
                forall|k: int| 0 <= k < i ==> is_space_char(s@[k]),
            ensures
                0 <= i <= n == s@.len(),
                forall|k: int| 0 <= k < i ==> is_space_char(s@[k]),
                i == n || !is_space_char(s@[i as int]),
            decreases n - i,
        {
            if i >= n {
                break ;
            }
            let c = s.get_char(i);
            if !(c == ' ' || c == '\t' || c == '\r' || c == '\n') {
                break ;
            }
            i = i + 1;
        }
        let mut j: usize = n;
        loop
            invariant
                i <= j <= n == s@.len(),
                forall|k: int| j <= k < s@.len() ==> is_space_char(s@[k]),
            ensures
                i <= j <= n == s@.len(),
                forall|k: int| j <= k < s@.len() ==> is_space_char(s@[k]),
                j == i || !is_space_char(s@[j - 1]),
            decreases j,
        {
            if j <= i {
                break ;
            }
            let c = s.get_char(j - 1);
            if !(c == ' ' || c == '\t' || c == '\r' || c == '\n') {
                break ;
            }
            j = j - 1;
        }
        proof {
            if i == j && i < n {
                assert(is_space_char(s@[i as int]));
                assert(false);
            }
            lemma_trim_exact(s@, i as int, j as int);
        }
        if j - i == 2 {
            let c0 = s.get_char(i);
            let c1 = s.get_char(i + 1);
            if (c0 == 'i' || c0 == 'I') && (c1 == 'n' || c1 == 'N') {
                return Some(Direction::In);
            }
            None
        } else if j - i == 3 {
            let c0 = s.get_char(i);
            let c1 = s.get_char(i + 1);
            let c2 = s.get_char(i + 2);
            if (c0 == 'o' || c0 == 'O') && (c1 == 'u' || c1 == 'U') && (c2 == 't' || c2 == 'T') {
                return Some(Direction::Out);
            }
            None
        } else {
            None
        }
    }

    /// Encode for the ledger: always capitalized `In` / `Out`.
    pub fn encode(&self) -> (r: &'static str)
        ensures
            self is In ==> r@ == "In"@,
            self is Out ==> r@ == "Out"@,
    {
        match self {
            Direction::In => "In",
            Direction::Out => "Out",
        }
    }
}

} // verus!
