//! Parsing of the configured target list: a comma-separated string whose
//! entries are trimmed of surrounding whitespace and registered once each.

use vstd::prelude::*;

verus! {

/// Whitespace stripped from both ends of a configured target entry: the
/// characters with the Unicode `White_Space` property, the set `str::trim`
/// removes.
pub open spec fn is_space(c: char) -> bool {
    let u = c as u32;
    (0x09 <= u && u <= 0x0D) || u == 0x20 || u == 0x85 || u == 0xA0 || u == 0x1680 || (0x2000 <= u
        && u <= 0x200A) || u == 0x2028 || u == 0x2029 || u == 0x202F || u == 0x205F || u == 0x3000
}

/// `s` with its leading whitespace removed.
pub open spec fn trim_front(s: Seq<char>) -> Seq<char>
    decreases s.len(),
{
    if s.len() > 0 && is_space(s[0]) {
        trim_front(s.drop_first())
    } else {
        s
    }
}

/// `s` with its trailing whitespace removed.
pub open spec fn trim_back(s: Seq<char>) -> Seq<char>
    decreases s.len(),
{
    if s.len() > 0 && is_space(s.last()) {
        trim_back(s.drop_last())
    } else {
        s
    }
}

/// `s` with the whitespace at both ends removed.
pub open spec fn trimmed(s: Seq<char>) -> Seq<char> {
    trim_back(trim_front(s))
}

/// The pieces of `s` between its commas, in order. A string without commas
/// is a single piece, so the empty string yields one empty piece.
pub open spec fn split_commas(s: Seq<char>) -> Seq<Seq<char>>
    decreases s.len(),
{
    if s.len() == 0 {
        seq![s]
    } else if s[0] == ',' {
        seq![Seq::<char>::empty()] + split_commas(s.drop_first())
    } else {
        let rest = split_commas(s.drop_first());
        seq![seq![s[0]] + rest[0]] + rest.drop_first()
    }
}

/// `s` with every element that already occurred earlier removed; the first
/// occurrences keep their order.
pub open spec fn dedup(s: Seq<Seq<char>>) -> Seq<Seq<char>>
    decreases s.len(),
{
    if s.len() == 0 {
        s
    } else {
        let d = dedup(s.drop_last());
        if d.contains(s.last()) {
            d
        } else {
            d.push(s.last())
        }
    }
}

/// Every piece of `ps` trimmed of the whitespace at its ends.
pub open spec fn trimmed_all(ps: Seq<Seq<char>>) -> Seq<Seq<char>> {
    ps.map_values(|p: Seq<char>| trimmed(p))
}

/// The registered target addresses of a configuration string: its pieces
/// between commas, each trimmed, first occurrences only.
pub open spec fn parsed_addrs(s: Seq<char>) -> Seq<Seq<char>> {
    dedup(trimmed_all(split_commas(s)))
}

/// A string with no comma splits into itself alone.
pub proof fn lemma_split_no_comma(s: Seq<char>)
    requires
        forall|k: int| 0 <= k < s.len() ==> s[k] != ',',
    ensures
        split_commas(s) == seq![s],
    decreases s.len(),
{
    if s.len() == 0 {
    } else {
        assert(s[0] != ',');
        let df = s.drop_first();
        assert(forall|k: int| 0 <= k < df.len() ==> df[k] == s[k + 1] && s[k + 1] != ',');
        lemma_split_no_comma(df);
        let rest = split_commas(df);
        assert(rest == seq![df]);
        assert(seq![s[0]] + df =~= s);
        assert(rest.drop_first() =~= Seq::<Seq<char>>::empty());
        assert(seq![seq![s[0]] + rest[0]] + rest.drop_first() =~= seq![s]);
    }
}

/// Splitting at the first comma: if `s[i]` is the first comma of `s`, the
/// pieces of `s` are `s.take(i)` followed by the pieces after the comma.
pub proof fn lemma_split_at_first_comma(s: Seq<char>, i: int)
    requires
        0 <= i < s.len(),
        s[i] == ',',
        forall|k: int| 0 <= k < i ==> s[k] != ',',
    ensures
        split_commas(s) == seq![s.take(i)] + split_commas(s.skip(i + 1)),
    decreases i,
{
    if i == 0 {
        assert(s.take(0) =~= Seq::<char>::empty());
        assert(s.skip(1) =~= s.drop_first());
        assert(split_commas(s) == seq![Seq::<char>::empty()] + split_commas(s.drop_first()));
    } else {
        let df = s.drop_first();
        assert(forall|k: int| 0 <= k < df.len() ==> df[k] == s[k + 1]);
        lemma_split_at_first_comma(df, i - 1);
        let rest = split_commas(df);
        assert(rest == seq![df.take(i - 1)] + split_commas(df.skip(i)));
        assert(rest[0] == df.take(i - 1));
        assert(seq![s[0]] + df.take(i - 1) =~= s.take(i));
        assert(df.skip(i) =~= s.skip(i + 1));
        assert(rest.drop_first() =~= split_commas(s.skip(i + 1)));
        assert(seq![seq![s[0]] + rest[0]] + rest.drop_first() =~= seq![s.take(i)] + split_commas(
            s.skip(i + 1),
        ));
    }
}

/// Deduplication removes the later copies only: its result never holds the
/// same element twice.
pub proof fn lemma_dedup_unique(s: Seq<Seq<char>>)
    ensures
        forall|i: int, j: int|
            0 <= i < dedup(s).len() && 0 <= j < dedup(s).len() && i != j ==> dedup(s)[i]
                != dedup(s)[j],
    decreases s.len(),
{
    if s.len() > 0 {
        lemma_dedup_unique(s.drop_last());
        let d = dedup(s.drop_last());
        if !d.contains(s.last()) {
            assert(forall|k: int| 0 <= k < d.len() ==> d[k] != s.last());
        }
    }
}

/// If the first `j` characters of `s` are whitespace and the next one, if
/// any, is not, trimming the front of `s` drops exactly those `j`.
pub proof fn lemma_trim_front_skip(s: Seq<char>, j: int)
    requires
        0 <= j <= s.len(),
        forall|k: int| 0 <= k < j ==> is_space(s[k]),
        j < s.len() ==> !is_space(s[j]),
    ensures
        trim_front(s) == s.skip(j),
    decreases j,
{
    if j == 0 {
        assert(s.skip(0) =~= s);
    } else {
        assert(is_space(s[0]));
        let df = s.drop_first();
        assert(forall|k: int| 0 <= k < df.len() ==> df[k] == s[k + 1]);
        lemma_trim_front_skip(df, j - 1);
        assert(df.skip(j - 1) =~= s.skip(j));
    }
}

/// If every character of `s` from position `b` on is whitespace and the one
/// before, if any, is not, trimming the back of `s` keeps exactly the first
/// `b`.
pub proof fn lemma_trim_back_take(s: Seq<char>, b: int)
    requires
        0 <= b <= s.len(),
        forall|k: int| b <= k < s.len() ==> is_space(s[k]),
        b > 0 ==> !is_space(s[b - 1]),
    ensures
        trim_back(s) == s.take(b),
    decreases s.len(),
{
    if b == s.len() {
        assert(s.take(b) =~= s);
    } else {
        assert(is_space(s.last()));
        let dl = s.drop_last();
        lemma_trim_back_take(dl, b);
        assert(dl.take(b) =~= s.take(b));
    }
}

/// Whether `c` counts as whitespace at the ends of a target entry.
pub fn is_space_char(c: char) -> (r: bool)
    ensures
        r == is_space(c),
{
    let u = c as u32;
    (0x09 <= u && u <= 0x0D) || u == 0x20 || u == 0x85 || u == 0xA0 || u == 0x1680 || (0x2000 <= u
        && u <= 0x200A) || u == 0x2028 || u == 0x2029 || u == 0x202F || u == 0x205F || u == 0x3000
}

/// The position of the first comma of `s` at or after `from`, or the length
/// of `s` if there is none.
pub fn find_comma(s: &str, from: usize) -> (i: usize)
    requires
        from as int <= s@.len(),
    ensures
        from <= i <= s@.len(),
        forall|k: int| from <= k < i ==> s@[k] != ',',
        i < s@.len() ==> s@[i as int] == ',',
{
    let n = s.unicode_len();
    let mut i = from;
    while i < n && s.get_char(i) != ','
        invariant
            from <= i <= n,
            n == s@.len(),
            forall|k: int| from <= k < i ==> s@[k] != ',',
        decreases n - i,
    {
        i = i + 1;
    }
    i
}

/// `s` with the whitespace at both ends removed, as a fresh `String`.
pub fn trim_str(s: &str) -> (r: String)
    ensures
        r@ == trimmed(s@),
{
    let n = s.unicode_len();
    let mut a: usize = 0;
    while a < n && is_space_char(s.get_char(a))
        invariant
            a <= n,
            n == s@.len(),
            forall|k: int| 0 <= k < a ==> is_space(s@[k]),
        decreases n - a,
    {
        a = a + 1;
    }
    let mut b: usize = n;
    while b > a && is_space_char(s.get_char(b - 1))
        invariant
            a <= b <= n,
            n == s@.len(),
            forall|k: int| b <= k < n ==> is_space(s@[k]),
        decreases b,
    {
        b = b - 1;
    }
    let piece = s.substring_char(a, b);
    proof {
        lemma_trim_front_skip(s@, a as int);
        let sk = s@.skip(a as int);
        assert(forall|k: int| (b - a) <= k < sk.len() ==> sk[k] == s@[k + a] && is_space(
            s@[k + a],
        ));
        lemma_trim_back_take(sk, b - a);
        assert(sk.take(b - a) =~= s@.subrange(a as int, b as int));
    }
    piece.to_owned()
}

} // verus!
