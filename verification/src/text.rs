//! Character-level text helpers the command grammar is built on: trimming,
//! searching, and splitting, each specified over `Seq<char>` views.

use vstd::prelude::*;
use vstd::string::*;

verus! {

/// The characters with the Unicode `White_Space` property: the set that
/// trimming removes from the ends of a string.
pub open spec fn is_ws(c: char) -> bool {
    c == '\u{0009}' || c == '\u{000A}' || c == '\u{000B}' || c == '\u{000C}'
        || c == '\u{000D}' || c == ' ' || c == '\u{0085}' || c == '\u{00A0}'
        || c == '\u{1680}' || c == '\u{2000}' || c == '\u{2001}' || c == '\u{2002}'
        || c == '\u{2003}' || c == '\u{2004}' || c == '\u{2005}' || c == '\u{2006}'
        || c == '\u{2007}' || c == '\u{2008}' || c == '\u{2009}' || c == '\u{200A}'
        || c == '\u{2028}' || c == '\u{2029}' || c == '\u{202F}' || c == '\u{205F}'
        || c == '\u{3000}'
}

pub fn char_is_ws(c: char) -> (b: bool)
    ensures
        b == is_ws(c),
{
    c == '\u{0009}' || c == '\u{000A}' || c == '\u{000B}' || c == '\u{000C}'
        || c == '\u{000D}' || c == ' ' || c == '\u{0085}' || c == '\u{00A0}'
        || c == '\u{1680}' || c == '\u{2000}' || c == '\u{2001}' || c == '\u{2002}'
        || c == '\u{2003}' || c == '\u{2004}' || c == '\u{2005}' || c == '\u{2006}'
        || c == '\u{2007}' || c == '\u{2008}' || c == '\u{2009}' || c == '\u{200A}'
        || c == '\u{2028}' || c == '\u{2029}' || c == '\u{202F}' || c == '\u{205F}'
        || c == '\u{3000}'
}

pub open spec fn all_ws(s: Seq<char>) -> bool {
    forall|i: int| 0 <= i < s.len() ==> is_ws(s[i])
}

// ---------------------------------------------------------------------------
// Trimming
// ---------------------------------------------------------------------------

pub open spec fn trim_start_rec(s: Seq<char>) -> Seq<char>
    decreases s.len(),
{
    if s.len() > 0 && is_ws(s[0]) {
        trim_start_rec(s.drop_first())
    } else {
        s
    }
}

pub open spec fn trim_end_rec(s: Seq<char>) -> Seq<char>
    decreases s.len(),
{
    if s.len() > 0 && is_ws(s.last()) {
        trim_end_rec(s.drop_last())
    } else {
        s
    }
}

/// What trimming a string leaves: the text without leading and trailing
/// whitespace.
pub open spec fn trim_seq(s: Seq<char>) -> Seq<char> {
    trim_end_rec(trim_start_rec(s))
}

pub proof fn lemma_trim_start_skip(s: Seq<char>, i: int)
    requires
        0 <= i <= s.len(),
        forall|j: int| 0 <= j < i ==> is_ws(s[j]),
    ensures
        trim_start_rec(s) == trim_start_rec(s.skip(i)),
    decreases i,
{
    if i > 0 {
        assert(s.drop_first() =~= s.skip(1));
        lemma_trim_start_skip(s.skip(1), i - 1);
        assert(s.skip(1).skip(i - 1) =~= s.skip(i));
    } else {
        assert(s.skip(0) =~= s);
    }
}

pub proof fn lemma_trim_end_take(s: Seq<char>, i: int)
    requires
        0 <= i <= s.len(),
        forall|j: int| i <= j < s.len() ==> is_ws(s[j]),
    ensures
        trim_end_rec(s) == trim_end_rec(s.take(i)),
    decreases s.len() - i,
{
    if i < s.len() {
        assert(is_ws(s.last()));
        assert(s.drop_last() =~= s.take(s.len() - 1));
        lemma_trim_end_take(s.take(s.len() - 1), i);
        assert(s.take(s.len() - 1).take(i) =~= s.take(i));
    } else {
        assert(s.take(i) =~= s);
    }
}

pub proof fn lemma_trim_end_len(s: Seq<char>)
    ensures
        trim_end_rec(s).len() <= s.len(),
    decreases s.len(),
{
    if s.len() > 0 && is_ws(s.last()) {
        lemma_trim_end_len(s.drop_last());
    }
}

/// Trimming trailing whitespace leaves a prefix of the string.
pub proof fn lemma_trim_end_prefix(s: Seq<char>)
    ensures
        trim_end_rec(s) == s.take(trim_end_rec(s).len() as int),
    decreases s.len(),
{
    if s.len() > 0 && is_ws(s.last()) {
        assert(s.drop_last() =~= s.take(s.len() - 1));
        lemma_trim_end_prefix(s.drop_last());
        lemma_trim_end_len(s.drop_last());
        assert(s.take(s.len() - 1).take(trim_end_rec(s).len() as int)
            =~= s.take(trim_end_rec(s).len() as int));
    } else {
        assert(s.take(s.len() as int) =~= s);
    }
}

pub proof fn lemma_trim_start_head(s: Seq<char>)
    ensures
        trim_start_rec(s).len() > 0 ==> !is_ws(trim_start_rec(s)[0]),
    decreases s.len(),
{
    if s.len() > 0 && is_ws(s[0]) {
        lemma_trim_start_head(s.drop_first());
    }
}

pub proof fn lemma_trim_end_last(s: Seq<char>)
    ensures
        trim_end_rec(s).len() > 0 ==> !is_ws(trim_end_rec(s).last()),
    decreases s.len(),
{
    if s.len() > 0 && is_ws(s.last()) {
        lemma_trim_end_last(s.drop_last());
    }
}

/// Trimming a string that keeps a non-whitespace head never empties it.
pub proof fn lemma_trim_end_keeps_head(s: Seq<char>)
    requires
        s.len() > 0,
        !is_ws(s[0]),
    ensures
        trim_end_rec(s).len() > 0,
        trim_end_rec(s)[0] == s[0],
    decreases s.len(),
{
    if is_ws(s.last()) {
        lemma_trim_end_keeps_head(s.drop_last());
    }
}

/// A non-empty string without whitespace at either end trims to itself.
pub proof fn lemma_trim_noop(s: Seq<char>)
    requires
        s.len() > 0,
        !is_ws(s[0]),
        !is_ws(s.last()),
    ensures
        trim_seq(s) == s,
{
    assert(trim_start_rec(s) == s);
    assert(trim_end_rec(s) == s);
}

/// Trimming is idempotent.
pub proof fn lemma_trim_idempotent(s: Seq<char>)
    ensures
        trim_seq(trim_seq(s)) == trim_seq(s),
{
    let t = trim_seq(s);
    if t.len() == 0 {
        assert(trim_start_rec(t) == t);
        assert(trim_end_rec(t) == t);
    } else {
        let m = trim_start_rec(s);
        lemma_trim_start_head(s);
        lemma_trim_end_prefix(m);
        lemma_trim_end_len(m);
        assert(t[0] == m.take(t.len() as int)[0]);
        assert(t[0] == m[0]);
        lemma_trim_end_last(m);
        lemma_trim_noop(t);
    }
}

/// A trimmed non-empty string has no whitespace at either end.
pub proof fn lemma_trimmed_ends(s: Seq<char>)
    requires
        trim_seq(s) == s,
        s.len() > 0,
    ensures
        !is_ws(s[0]),
        !is_ws(s.last()),
{
    let m = trim_start_rec(s);
    lemma_trim_start_head(s);
    lemma_trim_end_prefix(m);
    lemma_trim_end_len(m);
    lemma_trim_end_last(m);
    assert(s[0] == m.take(s.len() as int)[0]);
    assert(s[0] == m[0]);
}

/// Surrounding whitespace does not matter to trimming: padding an already
/// trimmed string with whitespace on both sides trims back to it.
pub proof fn lemma_trim_pad(lead: Seq<char>, core: Seq<char>, trail: Seq<char>)
    requires
        all_ws(lead),
        all_ws(trail),
        trim_seq(core) == core,
    ensures
        trim_seq(lead + core + trail) == core,
{
    let s = lead + core + trail;
    assert(forall|j: int| 0 <= j < lead.len() ==> is_ws(s[j]));
    lemma_trim_start_skip(s, lead.len() as int);
    assert(s.skip(lead.len() as int) =~= core + trail);
    if core.len() == 0 {
        assert(core + trail =~= trail);
        lemma_trim_start_skip(trail, trail.len() as int);
        assert(trail.skip(trail.len() as int) =~= Seq::<char>::empty());
        assert(trim_start_rec(s) =~= Seq::<char>::empty());
        assert(trim_seq(s) =~= core);
    } else {
        lemma_trimmed_ends(core);
        assert((core + trail)[0] == core[0]);
        assert(trim_start_rec(core + trail) == core + trail);
        assert(forall|j: int| core.len() <= j < (core + trail).len()
            ==> is_ws((core + trail)[j]));
        lemma_trim_end_take(core + trail, core.len() as int);
        assert((core + trail).take(core.len() as int) =~= core);
        assert(trim_end_rec(core) == core);
    }
}

/// Trims leading and trailing whitespace, as the grammar asks.
pub fn trim(s: &str) -> (r: &str)
    ensures
        r@ == trim_seq(s@),
{
    let n = s.unicode_len();
    let mut lo: usize = 0;
    while lo < n && char_is_ws(s.get_char(lo))
        invariant
            n == s@.len(),
            0 <= lo <= n,
            forall|j: int| 0 <= j < lo ==> is_ws(s@[j]),
        decreases n - lo,
    {
        lo = lo + 1;
    }
    let mut hi: usize = n;
    while hi > lo && char_is_ws(s.get_char(hi - 1))
        invariant
            n == s@.len(),
            0 <= lo <= hi <= n,
            forall|j: int| 0 <= j < lo ==> is_ws(s@[j]),
            forall|j: int| hi <= j < n ==> is_ws(s@[j]),
        decreases hi,
    {
        hi = hi - 1;
    }
    let r = s.substring_char(lo, hi);
    proof {
        lemma_trim_start_skip(s@, lo as int);
        if lo == n {
            assert(s@.skip(lo as int) =~= Seq::<char>::empty());
            assert(trim_seq(s@) =~= s@.subrange(lo as int, hi as int));
        } else {
            let m = s@.skip(lo as int);
            assert(m[0] == s@[lo as int]);
            assert(!is_ws(m[0]));
            assert(trim_start_rec(m) == m);
            assert(forall|j: int| hi - lo <= j < m.len() ==> is_ws(m[j]));
            lemma_trim_end_take(m, hi - lo);
            assert(m.take(hi - lo) =~= s@.subrange(lo as int, hi as int));
            if hi > lo {
                assert(!is_ws(s@[hi - 1]));
                let core = s@.subrange(lo as int, hi as int);
                assert(core.last() == s@[hi - 1]);
                assert(trim_end_rec(core) == core);
            } else {
                assert(m.take(0) =~= Seq::<char>::empty());
                assert(trim_end_rec(Seq::<char>::empty()) =~= Seq::<char>::empty());
                assert(s@.subrange(lo as int, hi as int) =~= Seq::<char>::empty());
            }
        }
    }
    r
}

// ---------------------------------------------------------------------------
// Searching
// ---------------------------------------------------------------------------

/// Index of the first occurrence of `c` in `s`, or `s.len()` when absent.
pub open spec fn find_char(s: Seq<char>, c: char) -> int
    decreases s.len(),
{
    if s.len() == 0 {
        0
    } else if s[0] == c {
        0
    } else {
        1 + find_char(s.drop_first(), c)
    }
}

pub proof fn lemma_find_char_props(s: Seq<char>, c: char)
    ensures
        0 <= find_char(s, c) <= s.len(),
        forall|j: int| 0 <= j < find_char(s, c) ==> s[j] != c,
        find_char(s, c) < s.len() ==> s[find_char(s, c)] == c,
    decreases s.len(),
{
    if s.len() > 0 && s[0] != c {
        lemma_find_char_props(s.drop_first(), c);
        assert(forall|j: int| 0 <= j < find_char(s.drop_first(), c)
            ==> s.drop_first()[j] != c);
        assert(forall|j: int| 1 <= j < find_char(s, c) ==> s[j] == s.drop_first()[j - 1]);
    }
}

pub proof fn lemma_find_char_is(s: Seq<char>, c: char, i: int)
    requires
        0 <= i <= s.len(),
        forall|j: int| 0 <= j < i ==> s[j] != c,
        i < s.len() ==> s[i] == c,
    ensures
        find_char(s, c) == i,
    decreases s.len(),
{
    if s.len() > 0 && s[0] != c {
        assert(i >= 1);
        assert(forall|j: int| 0 <= j < i - 1 ==> s.drop_first()[j] == s[j + 1]);
        assert(i - 1 < s.drop_first().len() ==> s.drop_first()[i - 1] == s[i]);
        lemma_find_char_is(s.drop_first(), c, i - 1);
    }
}

/// Finds the first occurrence of `c`, returning the string's length when `c`
/// does not occur.
pub fn find_in_str(s: &str, c: char) -> (i: usize)
    ensures
        i == find_char(s@, c),
        0 <= i <= s@.len(),
{
    let n = s.unicode_len();
    let mut i: usize = 0;
    while i < n && s.get_char(i) != c
        invariant
            n == s@.len(),
            0 <= i <= n,
            forall|j: int| 0 <= j < i ==> s@[j] != c,
        decreases n - i,
    {
        i = i + 1;
    }
    proof {
        lemma_find_char_is(s@, c, i as int);
    }
    i
}

// ---------------------------------------------------------------------------
// Splitting on '#'
// ---------------------------------------------------------------------------

/// The segments of `s` between occurrences of `#`, in order, kept raw:
/// splitting "a#b#" gives ["a", "b", ""].
pub open spec fn split_hash(s: Seq<char>) -> Seq<Seq<char>>
    decreases s.len(),
{
    let i = find_char(s, '#');
    if 0 <= i < s.len() {
        seq![s.subrange(0, i)] + split_hash(s.subrange(i + 1, s.len() as int))
    } else {
        seq![s]
    }
}

pub open spec fn nonempty_part(p: Seq<char>) -> bool {
    p.len() > 0
}

/// Trims each segment and drops the empty ones, keeping the order.
pub open spec fn clean_parts(parts: Seq<Seq<char>>) -> Seq<Seq<char>> {
    parts.map_values(|p: Seq<char>| trim_seq(p)).filter(|p: Seq<char>| nonempty_part(p))
}

/// The `#`-separated segments of `s`, each trimmed, empty ones dropped,
/// order preserved.
pub open spec fn hash_segments(s: Seq<char>) -> Seq<Seq<char>> {
    clean_parts(split_hash(s))
}

pub proof fn lemma_clean_singleton(p: Seq<char>)
    ensures
        clean_parts(seq![p]) == if trim_seq(p).len() > 0 {
            seq![trim_seq(p)]
        } else {
            Seq::<Seq<char>>::empty()
        },
{
    reveal_with_fuel(Seq::filter, 2);
    let mapped = seq![p].map_values(|p: Seq<char>| trim_seq(p));
    assert(mapped =~= seq![trim_seq(p)]);
    assert(mapped.drop_last() =~= Seq::<Seq<char>>::empty());
    if trim_seq(p).len() > 0 {
        assert(clean_parts(seq![p]) =~= seq![trim_seq(p)]);
    } else {
        assert(clean_parts(seq![p]) =~= Seq::<Seq<char>>::empty());
    }
}

pub proof fn lemma_clean_distributes(a: Seq<Seq<char>>, b: Seq<Seq<char>>)
    ensures
        clean_parts(a + b) == clean_parts(a) + clean_parts(b),
{
    let f = |q: Seq<char>| trim_seq(q);
    let pred = |p: Seq<char>| nonempty_part(p);
    assert((a + b).map_values(f) =~= a.map_values(f) + b.map_values(f));
    Seq::filter_distributes_over_add(a.map_values(f), b.map_values(f), pred);
}

proof fn lemma_filter_elems_from<A>(s: Seq<A>, pred: spec_fn(A) -> bool)
    ensures
        forall|i: int| 0 <= i < s.filter(pred).len()
            ==> pred(#[trigger] s.filter(pred)[i]) && s.contains(s.filter(pred)[i]),
    decreases s.len(),
{
    reveal(Seq::filter);
    if s.len() > 0 {
        let butlast = s.drop_last();
        let bf = butlast.filter(pred);
        lemma_filter_elems_from(butlast, pred);
        assert forall|i: int| 0 <= i < s.filter(pred).len() implies
            pred(#[trigger] s.filter(pred)[i]) && s.contains(s.filter(pred)[i]) by {
            let e = s.filter(pred)[i];
            if pred(s.last()) && i == s.filter(pred).len() - 1 {
                assert(e == s.last());
                assert(s[s.len() - 1] == s.last());
                assert(s.contains(s.last()));
            } else {
                assert(e == bf[i]);
                assert(butlast.contains(e));
                let j = choose|j: int| 0 <= j < butlast.len() && butlast[j] == e;
                assert(s[j] == e);
                assert(s.contains(e));
            }
        }
    }
}

/// Every cleaned segment is non-empty, is already trimmed, and trimming it
/// again changes nothing.
pub proof fn lemma_clean_parts_elems(parts: Seq<Seq<char>>)
    ensures
        forall|i: int| 0 <= i < clean_parts(parts).len()
            ==> (#[trigger] clean_parts(parts)[i]).len() > 0
                && trim_seq(clean_parts(parts)[i]) == clean_parts(parts)[i],
{
    let f = |q: Seq<char>| trim_seq(q);
    let pred = |p: Seq<char>| nonempty_part(p);
    let mapped = parts.map_values(f);
    lemma_filter_elems_from(mapped, pred);
    assert forall|i: int| 0 <= i < clean_parts(parts).len() implies
        (#[trigger] clean_parts(parts)[i]).len() > 0
            && trim_seq(clean_parts(parts)[i]) == clean_parts(parts)[i] by {
        let e = clean_parts(parts)[i];
        assert(mapped.contains(e));
        let j = choose|j: int| 0 <= j < mapped.len() && mapped[j] == e;
        assert(e == trim_seq(parts[j]));
        lemma_trim_idempotent(parts[j]);
    }
}

/// When `s` holds no `#`, its cleaned segments are just its trimmed self
/// (or nothing, if that is empty).
pub proof fn lemma_hash_segments_no_hash(s: Seq<char>)
    requires
        !s.contains('#'),
    ensures
        hash_segments(s) == if trim_seq(s).len() > 0 {
            seq![trim_seq(s)]
        } else {
            Seq::<Seq<char>>::empty()
        },
{
    assert(forall|j: int| 0 <= j < s.len() ==> s[j] != '#') by {
        assert forall|j: int| 0 <= j < s.len() implies s[j] != '#' by {
            if s[j] == '#' {
                assert(s.contains('#'));
            }
        }
    }
    lemma_find_char_is(s, '#', s.len() as int);
    assert(split_hash(s) =~= seq![s]);
    lemma_clean_singleton(s);
}

/// Unfolds one splitting step at the first `#`.
pub proof fn lemma_hash_segments_step(s: Seq<char>)
    requires
        0 <= find_char(s, '#') < s.len(),
    ensures
        hash_segments(s) == clean_parts(seq![s.subrange(0, find_char(s, '#'))])
            + hash_segments(s.subrange(find_char(s, '#') + 1, s.len() as int)),
{
    let i = find_char(s, '#');
    assert(split_hash(s) == seq![s.subrange(0, i)]
        + split_hash(s.subrange(i + 1, s.len() as int)));
    lemma_clean_distributes(
        seq![s.subrange(0, i)],
        split_hash(s.subrange(i + 1, s.len() as int)),
    );
}

/// A trimmed string that does not open with `#` yields a first cleaned
/// segment: its leading text up to the first `#`, trimmed.
pub proof fn lemma_hash_segments_head(s: Seq<char>)
    requires
        s.len() > 0,
        !is_ws(s[0]),
        s[0] != '#',
    ensures
        hash_segments(s).len() > 0,
        hash_segments(s)[0] == if 0 <= find_char(s, '#') < s.len() {
            trim_seq(s.subrange(0, find_char(s, '#')))
        } else {
            trim_seq(s)
        },
{
    let i = find_char(s, '#');
    lemma_find_char_props(s, '#');
    if i < s.len() {
        let head = s.subrange(0, i);
        assert(i > 0);
        assert(head[0] == s[0]);
        assert(trim_start_rec(head) == head);
        lemma_trim_end_keeps_head(head);
        lemma_hash_segments_step(s);
        lemma_clean_singleton(head);
        assert(hash_segments(s)[0] == trim_seq(head));
    } else {
        assert(!s.contains('#')) by {
            if s.contains('#') {
                let j = choose|j: int| 0 <= j < s.len() && s[j] == '#';
                assert(s[j] == '#');
            }
        }
        lemma_hash_segments_no_hash(s);
        assert(trim_start_rec(s) == s);
        lemma_trim_end_keeps_head(s);
    }
}

/// Splits `s` on `#`, trims every segment and keeps the non-empty ones, in
/// order.
pub fn hash_split(s: &str) -> (parts: Vec<String>)
    ensures
        parts.deep_view() == hash_segments(s@),
{
    let mut parts: Vec<String> = Vec::new();
    let n = s.unicode_len();
    let mut pos: usize = 0;
    proof {
        assert(s@.subrange(0, n as int) =~= s@);
        assert(parts.deep_view() + hash_segments(s@) =~= hash_segments(s@));
    }
    loop
        invariant_except_break
            n == s@.len(),
            0 <= pos <= n,
            parts.deep_view() + hash_segments(s@.subrange(pos as int, n as int))
                =~= hash_segments(s@),
        ensures
            parts.deep_view() =~= hash_segments(s@),
        decreases n - pos,
    {
        let ghost total = hash_segments(s@);
        let rem = s.substring_char(pos, n);
        let rn = rem.unicode_len();
        let i = find_in_str(rem, '#');
        let seg = trim(rem.substring_char(0, i));
        let ghost old_dv = parts.deep_view();
        let ghost remv = rem@;
        let ghost headv = remv.subrange(0, i as int);
        let ghost clean_head = if trim_seq(headv).len() > 0 {
            seq![trim_seq(headv)]
        } else {
            Seq::<Seq<char>>::empty()
        };
        proof {
            lemma_find_char_props(remv, '#');
            if i < rn {
                lemma_hash_segments_step(remv);
                lemma_clean_singleton(headv);
            } else {
                assert(!remv.contains('#')) by {
                    if remv.contains('#') {
                        let j = choose|j: int| 0 <= j < remv.len() && remv[j] == '#';
                        assert(remv[j] == '#');
                    }
                }
                lemma_hash_segments_no_hash(remv);
                assert(headv =~= remv);
            }
        }
        if seg.unicode_len() > 0 {
            parts.push(String::from_str(seg));
            proof {
                assert(parts.deep_view() =~= old_dv.push(seg@));
                assert(parts.deep_view() =~= old_dv + clean_head);
            }
        } else {
            proof {
                assert(parts.deep_view() =~= old_dv + clean_head);
            }
        }
        if pos + i == n {
            proof {
                assert(hash_segments(remv) =~= clean_head);
                assert(parts.deep_view() =~= total);
            }
            break;
        }
        pos = pos + i + 1;
        proof {
            let rest = s@.subrange(pos as int, n as int);
            assert(remv.subrange(i + 1, remv.len() as int) =~= rest);
            assert(old_dv + (clean_head + hash_segments(rest))
                =~= (old_dv + clean_head) + hash_segments(rest));
            assert(parts.deep_view() + hash_segments(rest) =~= total);
        }
    }
    parts
}

/// Compares two strings by their characters.
pub fn str_eq(a: &str, b: &str) -> (r: bool)
    ensures
        r == (a@ == b@),
{
    let na = a.unicode_len();
    let nb = b.unicode_len();
    if na != nb {
        proof {
            assert(a@.len() != b@.len());
        }
        return false;
    }
    let mut i: usize = 0;
    while i < na
        invariant
            na == a@.len(),
            na == b@.len(),
            0 <= i <= na,
            forall|j: int| 0 <= j < i ==> a@[j] == b@[j],
        decreases na - i,
    {
        if a.get_char(i) != b.get_char(i) {
            return false;
        }
        i = i + 1;
    }
    proof {
        assert(a@ =~= b@);
    }
    true
}

} // verus!
