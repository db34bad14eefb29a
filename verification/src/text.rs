//! Small operations on strings and characters.
use vstd::prelude::*;
use vstd::std_specs::iter::IteratorSpec;

verus! {

broadcast use vstd::string::group_string_axioms;

/// `String::push` (std) appends one character to the end of the string.
pub assume_specification[ std::string::String::push ](s: &mut std::string::String, ch: char)
    ensures
        final(s)@ == old(s)@.push(ch),
;

/// `String::pop` (std) removes the last character of the string and returns
/// it, or returns `None` and leaves the string as it is when it is empty.
pub assume_specification[ std::string::String::pop ](s: &mut std::string::String) -> (r: Option<char>)
    ensures
        old(s)@.len() == 0 ==> r is None && final(s)@ == old(s)@,
        old(s)@.len() > 0 ==> r == Some(old(s)@.last()) && final(s)@ == old(s)@.drop_last(),
;

/// Decodes `bytes` with `std::str::from_utf8` (std): the text they encode
/// when they are valid UTF-8, `None` otherwise.
#[verifier::external_body]
pub fn utf8_text(bytes: &[u8]) -> (r: Option<String>)
    ensures
        r is Some <==> vstd::utf8::valid_utf8(bytes@),
        r matches Some(s) ==> s@ == vstd::utf8::decode_utf8(bytes@),
{
    std::str::from_utf8(bytes).ok().map(|s| s.to_owned())
}

/// Collects the characters of `raw` in order.
pub fn chars_of(raw: &str) -> (res: Vec<char>)
    ensures
        res@ == raw@,
{
    let mut out: Vec<char> = Vec::new();
    let mut it = raw.chars();
    loop
        invariant
            out@ + it.remaining() == raw@,
            it.decrease() is Some,
        ensures
            out@ == raw@,
        decreases it.decrease()->0,
    {
        match it.next() {
            Some(c) => {
                out.push(c);
            },
            None => {
                break;
            },
        }
    }
    out
}

/// Whether `s` holds exactly the characters of `lit`.
pub fn string_is(s: &String, lit: &str) -> (b: bool)
    ensures
        b == (s@ == lit@),
{
    let t = lit.to_owned();
    s.eq(&t)
}

/// A string holding the characters of `chars`.
pub fn string_from_chars(chars: &Vec<char>) -> (s: String)
    ensures
        s@ == chars@,
{
    let mut s = String::new();
    let mut i: usize = 0;
    while i < chars.len()
        invariant
            i <= chars@.len(),
            s@ == chars@.subrange(0, i as int),
        decreases chars.len() - i,
    {
        s.push(chars[i]);
        i += 1;
    }
    s
}

/// The strings of a vector, taken by their views.
pub open spec fn strings_view(v: Seq<String>) -> Seq<Seq<char>> {
    v.map_values(|s: String| s@)
}

/// Lexicographic order of texts by character code: the order of `str`,
/// whose UTF-8 bytes compare in the same order as the characters they
/// encode.
pub open spec fn lex_lt(a: Seq<char>, b: Seq<char>) -> bool
    decreases a.len(),
{
    if a.len() == 0 {
        b.len() > 0
    } else if b.len() == 0 {
        false
    } else if a[0] != b[0] {
        a[0] < b[0]
    } else {
        lex_lt(a.drop_first(), b.drop_first())
    }
}

/// `a` comes before `b` or equals it.
pub open spec fn lex_le(a: Seq<char>, b: Seq<char>) -> bool {
    a == b || lex_lt(a, b)
}

/// No text comes before itself.
pub proof fn lemma_lex_irreflexive(a: Seq<char>)
    ensures
        !lex_lt(a, a),
    decreases a.len(),
{
    if a.len() > 0 {
        lemma_lex_irreflexive(a.drop_first());
    }
}

/// Of two texts, one comes first unless they are equal, and never both.
pub proof fn lemma_lex_total(a: Seq<char>, b: Seq<char>)
    ensures
        a != b ==> (lex_lt(a, b) || lex_lt(b, a)),
        !(lex_lt(a, b) && lex_lt(b, a)),
    decreases a.len(),
{
    if a.len() > 0 && b.len() > 0 {
        if a[0] == b[0] {
            lemma_lex_total(a.drop_first(), b.drop_first());
            if a.drop_first() == b.drop_first() {
                assert(a == seq![a[0]] + a.drop_first());
                assert(b == seq![b[0]] + b.drop_first());
            }
        }
    } else if a.len() == 0 && b.len() == 0 {
        assert(a == b);
    }
}

/// The order is transitive.
pub proof fn lemma_lex_transitive(a: Seq<char>, b: Seq<char>, c: Seq<char>)
    requires
        lex_lt(a, b),
        lex_lt(b, c),
    ensures
        lex_lt(a, c),
    decreases a.len(),
{
    if a.len() > 0 && b.len() > 0 && c.len() > 0 {
        if a[0] == b[0] && b[0] == c[0] {
            lemma_lex_transitive(a.drop_first(), b.drop_first(), c.drop_first());
        }
    }
}

/// Whether `a < b` in the order of [`lex_lt`].
pub fn string_lt(a: &String, b: &String) -> (r: bool)
    ensures
        r == lex_lt(a@, b@),
{
    let x = chars_of(a.as_str());
    let y = chars_of(b.as_str());
    let mut i: usize = 0;
    proof {
        assert(x@.subrange(0, x@.len() as int) == x@);
        assert(y@.subrange(0, y@.len() as int) == y@);
    }
    while i < x.len() && i < y.len() && x[i] == y[i]
        invariant
            i <= x@.len(),
            i <= y@.len(),
            x@.subrange(0, i as int) == y@.subrange(0, i as int),
            lex_lt(x@.subrange(i as int, x@.len() as int), y@.subrange(i as int, y@.len() as int))
                == lex_lt(x@, y@),
        decreases x.len() - i,
    {
        proof {
            let xs = x@.subrange(i as int, x@.len() as int);
            let ys = y@.subrange(i as int, y@.len() as int);
            assert(xs.drop_first() == x@.subrange(i + 1, x@.len() as int));
            assert(ys.drop_first() == y@.subrange(i + 1, y@.len() as int));
        }
        i += 1;
    }
    proof {
        assert(x@.subrange(0, x@.len() as int) == x@);
        assert(y@.subrange(0, y@.len() as int) == y@);
    }
    if i == x.len() {
        i < y.len()
    } else if i == y.len() {
        false
    } else {
        x[i] < y[i]
    }
}

/// Whether a list of texts is in non-decreasing order.
pub open spec fn sorted_texts(s: Seq<Seq<char>>) -> bool {
    forall|i: int, j: int| 0 <= i < j < s.len() ==> lex_le(s[i], s[j])
}

/// Sorts the strings into increasing order of [`lex_lt`] (`str`'s order).
pub fn sort_strings(v: Vec<String>) -> (r: Vec<String>)
    ensures
        sorted_texts(strings_view(r@)),
        strings_view(r@).to_multiset() == strings_view(v@).to_multiset(),
{
    broadcast use vstd::seq_lib::group_to_multiset_ensures;

    let mut out: Vec<String> = Vec::new();
    let mut k: usize = 0;
    while k < v.len()
        invariant
            k <= v@.len(),
            sorted_texts(strings_view(out@)),
            strings_view(out@).to_multiset() == strings_view(v@).subrange(0, k as int).to_multiset(),
        decreases v.len() - k,
    {
        let x = v[k].clone();
        // first position whose string comes after x
        let mut p: usize = 0;
        while p < out.len() && !string_lt(&x, &out[p])
            invariant
                p <= out@.len(),
                forall|i: int| 0 <= i < p ==> !lex_lt(x@, #[trigger] strings_view(out@)[i]),
            decreases out.len() - p,
        {
            p += 1;
        }
        let ghost before = strings_view(out@);
        out.insert(p, x);
        proof {
            let after = strings_view(out@);
            assert(after == before.insert(p as int, x@));
            before.insert_ensures(p as int, x@);
            // order: everything before p is <= x, everything from p on is > x
            assert forall|i: int, j: int| 0 <= i < j < after.len() implies lex_le(
                after[i],
                after[j],
            ) by {
                if i < p && j == p {
                    lemma_lex_total(before[i], x@);
                } else if i == p && j > p {
                    // before[p] > x (if p < old length) and before sorted
                    if p < before.len() {
                        assert(lex_lt(x@, before[p as int]));
                        if j - 1 > p {
                            assert(lex_le(before[p as int], before[j - 1]));
                            if before[p as int] != before[j - 1] {
                                lemma_lex_transitive(x@, before[p as int], before[j - 1]);
                            }
                        }
                    }
                } else if i < p && j > p {
                    assert(lex_le(before[i], before[j - 1]));
                } else if j < p {
                    assert(lex_le(before[i], before[j]));
                } else {
                    assert(lex_le(before[i - 1], before[j - 1]));
                }
            }
            // contents: one more copy of x
            assert(after.remove(p as int) == before);
            assert(after[p as int] == x@);
            after.to_multiset_ensures();
            before.to_multiset_ensures();
            assert(after.remove(p as int).to_multiset() == after.to_multiset().remove(after[p as int]));
            assert(after.contains(x@));
            assert(after.to_multiset().count(x@) > 0);
            assert(after.to_multiset() == before.to_multiset().insert(x@));
            assert(strings_view(v@).subrange(0, k + 1) == strings_view(v@).subrange(0, k as int).push(
                x@,
            ));
            strings_view(v@).subrange(0, k as int).to_multiset_ensures();
        }
        k += 1;
    }
    proof {
        assert(strings_view(v@).subrange(0, v@.len() as int) == strings_view(v@));
    }
    out
}

} // verus!
