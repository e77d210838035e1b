//! Character-level helpers shared by the parsers.

use vstd::prelude::*;

verus! {

/// The fields of `s` between occurrences of `sep`, in order. Text without a
/// separator (the empty text included) is a single field.
pub open spec fn split_on(s: Seq<char>, sep: char) -> Seq<Seq<char>>
    decreases s.len(),
{
    if s.len() == 0 {
        seq![Seq::<char>::empty()]
    } else {
        let head = split_on(s.drop_last(), sep);
        if s.last() == sep {
            head.push(Seq::<char>::empty())
        } else {
            head.update(head.len() - 1, head.last().push(s.last()))
        }
    }
}

/// Splitting always yields at least one field.
pub proof fn lemma_split_nonempty(s: Seq<char>, sep: char)
    ensures
        split_on(s, sep).len() >= 1,
    decreases s.len(),
{
    if s.len() > 0 {
        lemma_split_nonempty(s.drop_last(), sep);
    }
}

/// Whether `sep` occurs nowhere in `t`.
pub open spec fn free_of(t: Seq<char>, sep: char) -> bool {
    forall|i: int| 0 <= i < t.len() ==> #[trigger] t[i] != sep
}

/// Appending text without a separator extends the last field.
pub proof fn lemma_split_extend(p: Seq<char>, b: Seq<char>, sep: char)
    requires
        free_of(b, sep),
    ensures
        split_on(p + b, sep) == split_on(p, sep).update(
            split_on(p, sep).len() - 1,
            split_on(p, sep).last() + b,
        ),
    decreases b.len(),
{
    lemma_split_nonempty(p, sep);
    let sp = split_on(p, sep);
    if b.len() == 0 {
        assert(p + b =~= p);
        assert(sp.last() + b =~= sp.last());
        assert(sp.update(sp.len() - 1, sp.last()) =~= sp);
    } else {
        let bl = b.drop_last();
        assert(free_of(bl, sep)) by {
            assert forall|i: int| 0 <= i < bl.len() implies #[trigger] bl[i] != sep by {
                assert(bl[i] == b[i]);
            }
        }
        lemma_split_extend(p, bl, sep);
        assert((p + b).drop_last() =~= p + bl);
        assert((p + b).last() == b[b.len() - 1]);
        assert((sp.last() + bl).push(b.last()) =~= sp.last() + b);
        assert(split_on(p + b, sep) =~= sp.update(sp.len() - 1, sp.last() + b));
    }
}

/// Two texts without a separator, joined by one, split back into the two.
pub proof fn lemma_split_two(a: Seq<char>, b: Seq<char>, sep: char)
    requires
        free_of(a, sep),
        free_of(b, sep),
    ensures
        split_on(a + seq![sep] + b, sep) == seq![a, b],
{
    let e = Seq::<char>::empty();
    lemma_split_extend(e, a, sep);
    assert(e + a =~= a);
    assert(split_on(e, sep) == seq![e]);
    assert(split_on(a, sep) =~= seq![a]);
    let a1 = a + seq![sep];
    assert(a1.drop_last() =~= a);
    assert(split_on(a1, sep) =~= seq![a, e]);
    lemma_split_extend(a1, b, sep);
    assert(e + b =~= b);
    assert(split_on(a1 + b, sep) =~= seq![a, b]);
}

/// The lower-case form of a text, as Rust's `str::to_lowercase` writes it.
pub uninterp spec fn lower_of(s: Seq<char>) -> Seq<char>;

/// Relies on `str::to_lowercase`: its result depends on the characters of
/// the text alone.
#[verifier::external_body]
pub(crate) fn to_lower(s: &str) -> (r: String)
    ensures
        r@ == lower_of(s@),
{
    s.to_lowercase()
}

/// Whether `p` is a prefix of `t`.
pub open spec fn is_prefix(p: Seq<char>, t: Seq<char>) -> bool {
    p.len() <= t.len() && t.subrange(0, p.len() as int) == p
}

/// The views of a list of character vectors.
pub open spec fn views_of(v: Seq<Vec<char>>) -> Seq<Seq<char>> {
    v.map_values(|f: Vec<char>| f@)
}

/// The characters of `s`, one by one.
pub fn chars_of(s: &str) -> (r: Vec<char>)
    ensures
        r@ == s@,
{
    let n = s.unicode_len();
    let mut r: Vec<char> = Vec::new();
    let mut i: usize = 0;
    while i < n
        invariant
            n == s@.len(),
            i <= n,
            r@ == s@.subrange(0, i as int),
        decreases n - i,
    {
        r.push(s.get_char(i));
        i += 1;
    }
    assert(r@ =~= s@);
    r
}

/// Splits `s` at every occurrence of `sep`.
pub fn split_chars(s: &Vec<char>, sep: char) -> (r: Vec<Vec<char>>)
    ensures
        views_of(r@) == split_on(s@, sep),
{
    let mut fields: Vec<Vec<char>> = Vec::new();
    let mut cur: Vec<char> = Vec::new();
    let mut i: usize = 0;
    assert(views_of(fields@).push(cur@) =~= split_on(s@.subrange(0, 0), sep));
    while i < s.len()
        invariant
            i <= s.len(),
            views_of(fields@).push(cur@) == split_on(s@.subrange(0, i as int), sep),
        decreases s.len() - i,
    {
        let ghost pre = s@.subrange(0, i as int);
        let ghost next = s@.subrange(0, i as int + 1);
        assert(next.drop_last() =~= pre);
        assert(next.last() == s@[i as int]);
        let c = s[i];
        if c == sep {
            let done = cur;
            fields.push(done);
            cur = Vec::new();
            assert(views_of(fields@).push(cur@) =~= split_on(pre, sep).push(Seq::<char>::empty()));
        } else {
            cur.push(c);
            assert(views_of(fields@).push(cur@) =~= split_on(pre, sep).update(
                split_on(pre, sep).len() - 1,
                split_on(pre, sep).last().push(c),
            ));
        }
        i += 1;
    }
    assert(s@.subrange(0, s@.len() as int) =~= s@);
    fields.push(cur);
    assert(views_of(fields@) =~= split_on(s@, sep));
    fields
}

/// Whether the characters of `v` are exactly those of `t`.
pub fn same_text(v: &Vec<char>, t: &str) -> (r: bool)
    ensures
        r == (v@ == t@),
{
    let n = t.unicode_len();
    if v.len() != n {
        return false;
    }
    let mut i: usize = 0;
    while i < n
        invariant
            n == t@.len(),
            n == v@.len(),
            i <= n,
            v@.subrange(0, i as int) == t@.subrange(0, i as int),
        decreases n - i,
    {
        if v[i] != t.get_char(i) {
            return false;
        }
        assert(v@.subrange(0, i as int + 1) =~= v@.subrange(0, i as int).push(v@[i as int]));
        assert(t@.subrange(0, i as int + 1) =~= t@.subrange(0, i as int).push(t@[i as int]));
        i += 1;
    }
    assert(v@ =~= v@.subrange(0, n as int));
    assert(t@ =~= t@.subrange(0, n as int));
    true
}

} // verus!
