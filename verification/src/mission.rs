//! A small reader for Valve KeyValues text (the `missions/*.txt` files of an
//! addon) that extracts the map codes listed under `modes` → `coop`.
use vstd::prelude::*;

use crate::text::{chars_of, string_is};

verus! {

/// A lexical token of KeyValues text.
#[derive(Debug)]
pub enum Token {
    String(String),
    OpenBrace,
    CloseBrace,
}

/// The mathematical counterpart of [`Token`].
pub enum SpecToken {
    Str(Seq<char>),
    Open,
    Close,
}

impl View for Token {
    type V = SpecToken;

    open spec fn view(&self) -> SpecToken {
        match self {
            Token::String(s) => SpecToken::Str(s@),
            Token::OpenBrace => SpecToken::Open,
            Token::CloseBrace => SpecToken::Close,
        }
    }
}

/// The tokens of a vector, taken by their views.
pub open spec fn tokens_view(t: Seq<Token>) -> Seq<SpecToken> {
    t.map_values(|x: Token| x@)
}

/// Index of the first `c` in `s` at or after `i`, or `s.len()` when there is none.
pub open spec fn find_char(s: Seq<char>, i: int, c: char) -> int
    decreases s.len() - i,
{
    if i < 0 || i >= s.len() {
        s.len() as int
    } else if s[i] == c {
        i
    } else {
        find_char(s, i + 1, c)
    }
}

/// The position found lies at or after the start of the search and at most
/// at the end, holds the character when before the end, and no position
/// before it does.
pub proof fn lemma_find_char_bounds(s: Seq<char>, i: int, c: char)
    requires
        0 <= i,
    ensures
        i <= find_char(s, i, c) <= s.len() || (i > s.len() && find_char(s, i, c) == s.len()),
        find_char(s, i, c) < s.len() ==> s[find_char(s, i, c)] == c,
        forall|k: int| i <= k < find_char(s, i, c) ==> s[k] != c,
    decreases s.len() - i,
{
    if i < s.len() && s[i] != c {
        lemma_find_char_bounds(s, i + 1, c);
    }
}

/// Position just past the end of a `//` comment whose second slash is at `i`:
/// past the first newline at or after `i`, or the end of the text.
pub open spec fn comment_end(s: Seq<char>, i: int) -> int {
    let j = find_char(s, i, '\n');
    if j < s.len() {
        j + 1
    } else {
        s.len() as int
    }
}

/// Position just past the closing quote of a string whose contents start at
/// `i`: past the first `"` at or after `i`, or the end of the text.
pub open spec fn quote_end(s: Seq<char>, i: int) -> int {
    let j = find_char(s, i, '"');
    if j < s.len() {
        j + 1
    } else {
        s.len() as int
    }
}

/// The tokens of the text `s` from position `i` on.
///
/// A `"` opens a string that runs to the next `"` (or to the end of the
/// text); `{` and `}` are braces; `//` starts a comment that runs through the
/// end of its line; every other character separates tokens.
pub open spec fn tokens_from(s: Seq<char>, i: int) -> Seq<SpecToken>
    decreases s.len() - i,
{
    if i < 0 || i >= s.len() {
        Seq::empty()
    } else if s[i] == '/' {
        if i + 1 < s.len() && s[i + 1] == '/' {
            proof {
                lemma_find_char_bounds(s, i + 1, '\n');
            }
            tokens_from(s, comment_end(s, i + 1))
        } else {
            tokens_from(s, i + 1)
        }
    } else if s[i] == '"' {
        proof {
            lemma_find_char_bounds(s, i + 1, '"');
        }
        let j = find_char(s, i + 1, '"');
        seq![SpecToken::Str(s.subrange(i + 1, j))] + tokens_from(s, quote_end(s, i + 1))
    } else if s[i] == '{' {
        seq![SpecToken::Open] + tokens_from(s, i + 1)
    } else if s[i] == '}' {
        seq![SpecToken::Close] + tokens_from(s, i + 1)
    } else {
        tokens_from(s, i + 1)
    }
}

/// The tokens of the whole text `s`.
pub open spec fn spec_tokenize(s: Seq<char>) -> Seq<SpecToken> {
    tokens_from(s, 0)
}

/// Index of the first `c` in `s` at or after `i`, or `s.len()`.
fn find_char_exec(s: &Vec<char>, i: usize, c: char) -> (j: usize)
    requires
        i <= s.len(),
    ensures
        j == find_char(s@, i as int, c),
        i <= j <= s.len(),
{
    let mut j = i;
    while j < s.len()
        invariant
            i <= j <= s.len(),
            find_char(s@, j as int, c) == find_char(s@, i as int, c),
        decreases s.len() - j,
    {
        if s[j] == c {
            return j;
        }
        j += 1;
    }
    j
}

/// Tokenize Valve KeyValues text into a flat list of tokens.
/// Handles quoted strings, braces, and // comments.
pub fn tokenize(raw: &str) -> (tokens: Vec<Token>)
    ensures
        tokens_view(tokens@) == spec_tokenize(raw@),
{
    let s = chars_of(raw);
    let mut tokens: Vec<Token> = Vec::new();
    let mut i: usize = 0;
    while i < s.len()
        invariant
            i <= s.len(),
            tokens_view(tokens@) + tokens_from(s@, i as int) == spec_tokenize(s@),
        decreases s.len() - i,
    {
        let ghost old_tokens = tokens@;
        let ch = s[i];
        if ch == '/' {
            if i + 1 < s.len() && s[i + 1] == '/' {
                let j = find_char_exec(&s, i + 1, '\n');
                if j < s.len() {
                    i = j + 1;
                } else {
                    i = j;
                }
            } else {
                i += 1;
            }
        } else if ch == '"' {
            let j = find_char_exec(&s, i + 1, '"');
            let mut text = String::new();
            let mut k = i + 1;
            while k < j
                invariant
                    i + 1 <= k <= j <= s.len(),
                    text@ == s@.subrange(i + 1, k as int),
                decreases j - k,
            {
                text.push(s[k]);
                k += 1;
            }
            tokens.push(Token::String(text));
            proof {
                assert(tokens_view(tokens@) == tokens_view(old_tokens).push(
                    SpecToken::Str(s@.subrange(i + 1, j as int)),
                ));
            }
            if j < s.len() {
                i = j + 1;
            } else {
                i = j;
            }
        } else if ch == '{' {
            tokens.push(Token::OpenBrace);
            proof {
                assert(tokens_view(tokens@) == tokens_view(old_tokens).push(SpecToken::Open));
            }
            i += 1;
        } else if ch == '}' {
            tokens.push(Token::CloseBrace);
            proof {
                assert(tokens_view(tokens@) == tokens_view(old_tokens).push(SpecToken::Close));
            }
            i += 1;
        } else {
            i += 1;
        }
    }
    tokens
}

/// Whether `t` is the brace that `open` asks for.
pub open spec fn is_brace(t: SpecToken, open: bool) -> bool {
    if open {
        t is Open
    } else {
        t is Close
    }
}

/// Consumes the brace `open` asks for at `*pos`, if it is there.
pub fn expect_brace(tokens: &[Token], pos: &mut usize, open: bool) -> (res: bool)
    ensures
        res == (*old(pos) < tokens@.len() && is_brace(tokens@[*old(pos) as int]@, open)),
        *final(pos) == if res {
            *old(pos) + 1
        } else {
            *old(pos) as int
        },
{
    if *pos < tokens.len() {
        let hit = match &tokens[*pos] {
            Token::OpenBrace => open,
            Token::CloseBrace => !open,
            Token::String(_) => false,
        };
        if hit {
            *pos += 1;
        }
        hit
    } else {
        false
    }
}

/// Position just past the first `"modes"` string at or after `pos`, or
/// `t.len()` when there is none.
pub open spec fn modes_end(t: Seq<SpecToken>, pos: int) -> int
    decreases t.len() - pos,
{
    if pos < 0 || pos >= t.len() {
        t.len() as int
    } else if t[pos] == SpecToken::Str("modes"@) {
        pos + 1
    } else {
        modes_end(t, pos + 1)
    }
}

/// Walks a block from `pos` at nesting `depth` and gathers the string that
/// directly follows each `"Map"` key, at any depth, until the brace that
/// closes the block (a key followed by a brace, or by nothing, has no value
/// and the brace still counts). Returns the values in order, with the
/// position just past that closing brace, or the end of `t` (or `pos`, when
/// it is already past the end).
pub open spec fn collect_maps(t: Seq<SpecToken>, pos: int, depth: nat) -> (Seq<Seq<char>>, int)
    decreases t.len() - pos,
{
    if pos < 0 || depth == 0 || pos >= t.len() {
        (Seq::empty(), pos)
    } else {
        match t[pos] {
            SpecToken::Open => collect_maps(t, pos + 1, depth + 1),
            SpecToken::Close => collect_maps(t, pos + 1, (depth - 1) as nat),
            SpecToken::Str(s) => if s == "Map"@ && pos + 1 < t.len() && t[pos + 1] is Str {
                let rest = collect_maps(t, pos + 2, depth);
                (seq![t[pos + 1]->Str_0] + rest.0, rest.1)
            } else {
                collect_maps(t, pos + 1, depth)
            },
        }
    }
}

/// Walks the `modes` block from `pos` at nesting `depth` looking for a
/// `"coop"` key directly inside it; when found and followed by `{`, the map
/// values of that block.
pub open spec fn scan_modes(t: Seq<SpecToken>, pos: int, depth: nat) -> Seq<Seq<char>>
    decreases t.len() - pos,
{
    if pos < 0 || depth == 0 || pos >= t.len() {
        Seq::empty()
    } else {
        match t[pos] {
            SpecToken::Open => scan_modes(t, pos + 1, depth + 1),
            SpecToken::Close => scan_modes(t, pos + 1, (depth - 1) as nat),
            SpecToken::Str(s) => if s == "coop"@ && depth == 1 {
                if pos + 1 < t.len() && t[pos + 1] is Open {
                    collect_maps(t, pos + 2, 1).0
                } else {
                    Seq::empty()
                }
            } else {
                scan_modes(t, pos + 1, depth)
            },
        }
    }
}

/// The map codes of a token stream: the values of every `"Map"` key inside
/// the `coop` block that stands directly in the first `modes` block.
pub open spec fn spec_coop_maps(t: Seq<SpecToken>) -> Seq<Seq<char>> {
    let p = modes_end(t, 0);
    if p >= t.len() {
        Seq::empty()
    } else if !(t[p] is Open) {
        Seq::empty()
    } else {
        scan_modes(t, p + 1, 1)
    }
}

proof fn lemma_modes_end_found(t: Seq<SpecToken>, pos: int)
    requires
        0 <= pos,
    ensures
        modes_end(t, pos) <= t.len(),
        modes_end(t, pos) < t.len() ==> pos < modes_end(t, pos) && t[modes_end(t, pos) - 1]
            == SpecToken::Str("modes"@),
        (forall|i: int| pos <= i < t.len() ==> t[i] != SpecToken::Str("modes"@)) ==> modes_end(
            t,
            pos,
        ) == t.len(),
    decreases t.len() - pos,
{
    if pos < t.len() && t[pos] != SpecToken::Str("modes"@) {
        lemma_modes_end_found(t, pos + 1);
    }
}

proof fn lemma_concat_contains<A>(x: A, r: Seq<A>, m: A)
    requires
        (seq![x] + r).contains(m),
    ensures
        m == x || r.contains(m),
{
    let s = seq![x] + r;
    let i = choose|i: int| 0 <= i < s.len() && s[i] == m;
    if i > 0 {
        assert(r[i - 1] == m);
    }
}

proof fn lemma_collect_maps_sound(t: Seq<SpecToken>, pos: int, depth: nat, m: Seq<char>)
    requires
        0 <= pos,
        collect_maps(t, pos, depth).0.contains(m),
    ensures
        exists|k: int|
            #![trigger t[k]]
            pos <= k && k + 1 < t.len() && t[k] == SpecToken::Str("Map"@) && t[k + 1]
                == SpecToken::Str(m),
    decreases t.len() - pos,
{
    if depth == 0 || pos >= t.len() {
    } else {
        match t[pos] {
            SpecToken::Open => lemma_collect_maps_sound(t, pos + 1, depth + 1, m),
            SpecToken::Close => lemma_collect_maps_sound(t, pos + 1, (depth - 1) as nat, m),
            SpecToken::Str(s) => if s == "Map"@ && pos + 1 < t.len() && t[pos + 1] is Str {
                let rest = collect_maps(t, pos + 2, depth);
                lemma_concat_contains(t[pos + 1]->Str_0, rest.0, m);
                if m == t[pos + 1]->Str_0 {
                    assert(t[pos + 1] == SpecToken::Str(m));
                } else {
                    lemma_collect_maps_sound(t, pos + 2, depth, m);
                }
            } else {
                lemma_collect_maps_sound(t, pos + 1, depth, m);
            },
        }
    }
}

proof fn lemma_scan_modes_sound(t: Seq<SpecToken>, pos: int, depth: nat, m: Seq<char>)
    requires
        0 <= pos,
        scan_modes(t, pos, depth).contains(m),
    ensures
        exists|j: int, k: int|
            #![trigger t[j], t[k]]
            pos <= j < k && k + 1 < t.len() && t[j] == SpecToken::Str("coop"@) && t[k]
                == SpecToken::Str("Map"@) && t[k + 1] == SpecToken::Str(m),
    decreases t.len() - pos,
{
    if depth == 0 || pos >= t.len() {
    } else {
        match t[pos] {
            SpecToken::Open => lemma_scan_modes_sound(t, pos + 1, depth + 1, m),
            SpecToken::Close => lemma_scan_modes_sound(t, pos + 1, (depth - 1) as nat, m),
            SpecToken::Str(s) => if s == "coop"@ && depth == 1 {
                if pos + 1 < t.len() && t[pos + 1] is Open {
                    lemma_collect_maps_sound(t, pos + 2, 1, m);
                    let k = choose|k: int|
                        #![trigger t[k]]
                        pos + 2 <= k && k + 1 < t.len() && t[k] == SpecToken::Str("Map"@)
                            && t[k + 1] == SpecToken::Str(m);
                    assert(t[pos] == SpecToken::Str("coop"@));
                    assert(pos < k);
                }
            } else {
                lemma_scan_modes_sound(t, pos + 1, depth, m);
            },
        }
    }
}

/// A map code is reported only where the tokens hold a `"modes"` key, after
/// it a `"coop"` key, and after that a `"Map"` key directly followed by the
/// code.
pub proof fn lemma_coop_maps_sound(t: Seq<SpecToken>, m: Seq<char>)
    requires
        spec_coop_maps(t).contains(m),
    ensures
        exists|i: int, j: int, k: int|
            #![trigger t[i], t[j], t[k]]
            0 <= i < j < k && k + 1 < t.len() && t[i] == SpecToken::Str("modes"@) && t[j]
                == SpecToken::Str("coop"@) && t[k] == SpecToken::Str("Map"@) && t[k + 1]
                == SpecToken::Str(m),
{
    let p = modes_end(t, 0);
    lemma_modes_end_found(t, 0);
    lemma_scan_modes_sound(t, p + 1, 1, m);
    let (j, k) = choose|j: int, k: int|
        #![trigger t[j], t[k]]
        p + 1 <= j < k && k + 1 < t.len() && t[j] == SpecToken::Str("coop"@) && t[k]
            == SpecToken::Str("Map"@) && t[k + 1] == SpecToken::Str(m);
    assert(t[p - 1] == SpecToken::Str("modes"@));
    assert(0 <= p - 1 < j < k);
}

/// Text without a `"modes"` key yields no map codes.
pub proof fn lemma_no_modes_no_maps(t: Seq<SpecToken>)
    requires
        forall|i: int| 0 <= i < t.len() ==> t[i] != SpecToken::Str("modes"@),
    ensures
        spec_coop_maps(t) == Seq::<Seq<char>>::empty(),
{
    lemma_modes_end_found(t, 0);
}

/// Whether `m` stands in `s` as the body of a quoted string: right after a
/// quote.
pub open spec fn quoted_in(s: Seq<char>, m: Seq<char>) -> bool {
    exists|j: int|
        0 <= j && j + 1 + m.len() <= s.len() && #[trigger] s[j] == '"' && s.subrange(
            j + 1,
            j + 1 + m.len(),
        ) == m
}

proof fn lemma_string_tokens_quoted(s: Seq<char>, i: int, k: int)
    requires
        0 <= i,
        0 <= k < tokens_from(s, i).len(),
        tokens_from(s, i)[k] is Str,
    ensures
        !tokens_from(s, i)[k]->Str_0.contains('"'),
        quoted_in(s, tokens_from(s, i)[k]->Str_0),
    decreases s.len() - i,
{
    if i < s.len() {
        if s[i] == '/' {
            if i + 1 < s.len() && s[i + 1] == '/' {
                lemma_find_char_bounds(s, i + 1, '\n');
                lemma_string_tokens_quoted(s, comment_end(s, i + 1), k);
            } else {
                lemma_string_tokens_quoted(s, i + 1, k);
            }
        } else if s[i] == '"' {
            lemma_find_char_bounds(s, i + 1, '"');
            let j = find_char(s, i + 1, '"');
            let body = s.subrange(i + 1, j);
            let rest = tokens_from(s, quote_end(s, i + 1));
            assert(tokens_from(s, i) == seq![SpecToken::Str(body)] + rest);
            if k == 0 {
                assert forall|x: int| 0 <= x < body.len() implies body[x] != '"' by {
                    assert(body[x] == s[i + 1 + x]);
                }
                assert(s[i] == '"');
            } else {
                assert(tokens_from(s, i)[k] == rest[k - 1]);
                lemma_string_tokens_quoted(s, quote_end(s, i + 1), k - 1);
            }
        } else if s[i] == '{' || s[i] == '}' {
            let rest = tokens_from(s, i + 1);
            assert(tokens_from(s, i)[k] == rest[k - 1]);
            lemma_string_tokens_quoted(s, i + 1, k - 1);
        } else {
            lemma_string_tokens_quoted(s, i + 1, k);
        }
    }
}

/// Each map code read from a text is, word for word, the body of a quoted
/// string of that text: it holds no quote and stands right after a quote.
pub proof fn lemma_coop_map_values_quoted(s: Seq<char>, m: Seq<char>)
    requires
        spec_coop_maps(spec_tokenize(s)).contains(m),
    ensures
        !m.contains('"'),
        quoted_in(s, m),
{
    let t = spec_tokenize(s);
    lemma_coop_maps_sound(t, m);
    let (i, j, k) = choose|i: int, j: int, k: int|
        #![trigger t[i], t[j], t[k]]
        0 <= i < j < k && k + 1 < t.len() && t[i] == SpecToken::Str("modes"@) && t[j]
            == SpecToken::Str("coop"@) && t[k] == SpecToken::Str("Map"@) && t[k + 1]
            == SpecToken::Str(m);
    lemma_string_tokens_quoted(s, 0, k + 1);
}

/// Number of `"Map"` keys at or after `pos` that a string follows.
pub open spec fn map_pairs(t: Seq<SpecToken>, pos: int) -> nat
    decreases t.len() - pos,
{
    if pos < 0 || pos >= t.len() {
        0
    } else {
        (if t[pos] == SpecToken::Str("Map"@) && pos + 1 < t.len() && t[pos + 1] is Str {
            1nat
        } else {
            0nat
        }) + map_pairs(t, pos + 1)
    }
}

proof fn lemma_map_pairs_mono(t: Seq<SpecToken>, a: int, b: int)
    requires
        0 <= a <= b,
    ensures
        map_pairs(t, b) <= map_pairs(t, a),
    decreases b - a,
{
    if a < b {
        lemma_map_pairs_mono(t, a + 1, b);
    }
}

proof fn lemma_collect_maps_count(t: Seq<SpecToken>, pos: int, depth: nat)
    requires
        0 <= pos,
    ensures
        collect_maps(t, pos, depth).0.len() <= map_pairs(t, pos),
    decreases t.len() - pos,
{
    if depth == 0 || pos >= t.len() {
    } else {
        match t[pos] {
            SpecToken::Open => lemma_collect_maps_count(t, pos + 1, depth + 1),
            SpecToken::Close => lemma_collect_maps_count(t, pos + 1, (depth - 1) as nat),
            SpecToken::Str(x) => if x == "Map"@ && pos + 1 < t.len() && t[pos + 1] is Str {
                lemma_collect_maps_count(t, pos + 2, depth);
                lemma_map_pairs_mono(t, pos + 1, pos + 2);
            } else {
                lemma_collect_maps_count(t, pos + 1, depth);
            },
        }
    }
}

proof fn lemma_scan_modes_count(t: Seq<SpecToken>, pos: int, depth: nat)
    requires
        0 <= pos,
    ensures
        scan_modes(t, pos, depth).len() <= map_pairs(t, pos),
    decreases t.len() - pos,
{
    if depth == 0 || pos >= t.len() {
    } else {
        match t[pos] {
            SpecToken::Open => lemma_scan_modes_count(t, pos + 1, depth + 1),
            SpecToken::Close => lemma_scan_modes_count(t, pos + 1, (depth - 1) as nat),
            SpecToken::Str(x) => if x == "coop"@ && depth == 1 {
                if pos + 1 < t.len() && t[pos + 1] is Open {
                    lemma_collect_maps_count(t, pos + 2, 1);
                    lemma_map_pairs_mono(t, pos, pos + 2);
                }
            } else {
                lemma_scan_modes_count(t, pos + 1, depth);
            },
        }
    }
}

/// The five characters `"Map"`, quotes included.
pub open spec fn quoted_map_key() -> Seq<char> {
    seq!['"', 'M', 'a', 'p', '"']
}

/// Number of occurrences of `"Map"` in `s` from `i` on, counted left to
/// right without overlap (as `str::matches` counts them).
pub open spec fn quoted_map_count(s: Seq<char>, i: int) -> nat
    decreases s.len() - i,
{
    if i < 0 || i + 5 > s.len() {
        0
    } else if s.subrange(i, i + 5) == quoted_map_key() {
        1 + quoted_map_count(s, i + 5)
    } else {
        quoted_map_count(s, i + 1)
    }
}

proof fn lemma_quoted_map_count_step(s: Seq<char>, i: int)
    requires
        0 <= i,
    ensures
        quoted_map_count(s, i + 1) <= quoted_map_count(s, i),
    decreases s.len() - i,
{
    if i + 5 <= s.len() && s.subrange(i, i + 5) == quoted_map_key() {
        // no occurrence starts inside the key, whose inner characters are not quotes
        assert(s[i + 1] == 'M' && s[i + 2] == 'a' && s[i + 3] == 'p') by {
            assert(s.subrange(i, i + 5)[1] == s[i + 1]);
            assert(s.subrange(i, i + 5)[2] == s[i + 2]);
            assert(s.subrange(i, i + 5)[3] == s[i + 3]);
        }
        if i + 6 <= s.len() {
            assert(s.subrange(i + 1, i + 6)[0] == s[i + 1]);
        }
        if i + 7 <= s.len() {
            assert(s.subrange(i + 2, i + 7)[0] == s[i + 2]);
        }
        if i + 8 <= s.len() {
            assert(s.subrange(i + 3, i + 8)[0] == s[i + 3]);
        }
        assert(quoted_map_count(s, i + 1) == quoted_map_count(s, i + 2));
        assert(quoted_map_count(s, i + 2) == quoted_map_count(s, i + 3));
        assert(quoted_map_count(s, i + 3) == quoted_map_count(s, i + 4));
        if i + 9 <= s.len() && s.subrange(i + 4, i + 9) == quoted_map_key() {
            lemma_quoted_map_count_step(s, i + 8);
            lemma_quoted_map_count_step(s, i + 7);
            lemma_quoted_map_count_step(s, i + 6);
            lemma_quoted_map_count_step(s, i + 5);
        }
    }
}

proof fn lemma_quoted_map_count_mono(s: Seq<char>, a: int, b: int)
    requires
        0 <= a <= b,
    ensures
        quoted_map_count(s, b) <= quoted_map_count(s, a),
    decreases b - a,
{
    if a < b {
        lemma_quoted_map_count_mono(s, a + 1, b);
        lemma_quoted_map_count_step(s, a);
    }
}

proof fn lemma_map_pairs_prepend(x: SpecToken, r: Seq<SpecToken>, k: int)
    requires
        0 <= k,
    ensures
        map_pairs(seq![x] + r, k + 1) == map_pairs(r, k),
    decreases r.len() - k,
{
    let t = seq![x] + r;
    if k < r.len() {
        assert(t[k + 1] == r[k]);
        if k + 1 < r.len() {
            assert(t[k + 2] == r[k + 1]);
        }
        lemma_map_pairs_prepend(x, r, k + 1);
    }
}

proof fn lemma_tokens_map_pairs(s: Seq<char>, i: int)
    requires
        0 <= i,
    ensures
        map_pairs(tokens_from(s, i), 0) <= quoted_map_count(s, i),
    decreases s.len() - i,
{
    if i < s.len() {
        if s[i] == '/' {
            if i + 1 < s.len() && s[i + 1] == '/' {
                lemma_find_char_bounds(s, i + 1, '\n');
                lemma_tokens_map_pairs(s, comment_end(s, i + 1));
                lemma_quoted_map_count_mono(s, i, comment_end(s, i + 1));
            } else {
                lemma_tokens_map_pairs(s, i + 1);
                lemma_quoted_map_count_mono(s, i, i + 1);
            }
        } else if s[i] == '"' {
            lemma_find_char_bounds(s, i + 1, '"');
            let j = find_char(s, i + 1, '"');
            let body = s.subrange(i + 1, j);
            let q = quote_end(s, i + 1);
            let rest = tokens_from(s, q);
            let t = seq![SpecToken::Str(body)] + rest;
            assert(tokens_from(s, i) == t);
            lemma_map_pairs_prepend(SpecToken::Str(body), rest, 0);
            lemma_tokens_map_pairs(s, q);
            if body == "Map"@ && 1 < t.len() && t[1] is Str {
                reveal_strlit("Map");
                assert("Map"@.len() == 3);
                assert(body.len() == j - (i + 1));
                assert(j == i + 4);
                assert(q < s.len() + 1);
                assert(j < s.len()) by {
                    if j >= s.len() {
                        assert(q == s.len());
                        assert(rest.len() == 0);
                    }
                }
                assert(s.subrange(i, i + 5) == quoted_map_key()) by {
                    assert forall|k: int| 0 <= k < 5 implies s.subrange(i, i + 5)[k] == quoted_map_key()[k] by {
                        if 1 <= k <= 3 {
                            assert(body[k - 1] == s[i + k]);
                        }
                    }
                }
                assert(q == i + 5);
            } else {
                lemma_quoted_map_count_mono(s, i, q);
            }
        } else if s[i] == '{' || s[i] == '}' {
            let x = if s[i] == '{' {
                SpecToken::Open
            } else {
                SpecToken::Close
            };
            let rest = tokens_from(s, i + 1);
            assert(tokens_from(s, i) == seq![x] + rest);
            lemma_map_pairs_prepend(x, rest, 0);
            lemma_tokens_map_pairs(s, i + 1);
            lemma_quoted_map_count_mono(s, i, i + 1);
        } else {
            lemma_tokens_map_pairs(s, i + 1);
            lemma_quoted_map_count_mono(s, i, i + 1);
        }
    }
}

/// A text yields at most as many map codes as it holds `"Map"` keys
/// (counted as `str::matches` counts `"Map"`, quotes included).
pub proof fn lemma_coop_map_count_bound(s: Seq<char>)
    ensures
        spec_coop_maps(spec_tokenize(s)).len() <= quoted_map_count(s, 0),
{
    let t = spec_tokenize(s);
    lemma_tokens_map_pairs(s, 0);
    lemma_modes_end_found(t, 0);
    let p = modes_end(t, 0);
    if p < t.len() && t[p] is Open {
        lemma_scan_modes_count(t, p + 1, 1);
        lemma_map_pairs_mono(t, 0, p + 1);
    }
}

/// Text without a `"coop"` key yields no map codes.
pub proof fn lemma_no_coop_no_maps(t: Seq<SpecToken>)
    requires
        forall|i: int| 0 <= i < t.len() ==> t[i] != SpecToken::Str("coop"@),
    ensures
        spec_coop_maps(t) == Seq::<Seq<char>>::empty(),
{
    let r = spec_coop_maps(t);
    if r.len() > 0 {
        assert(r.contains(r[0]));
        lemma_coop_maps_sound(t, r[0]);
    }
}

proof fn lemma_find_char_shift(p: Seq<char>, r: Seq<char>, i: int, c: char)
    requires
        0 <= i,
    ensures
        find_char(p + r, p.len() + i, c) == p.len() + find_char(r, i, c),
    decreases r.len() - i,
{
    if i < r.len() {
        assert((p + r)[p.len() + i] == r[i]);
        if r[i] != c {
            lemma_find_char_shift(p, r, i + 1, c);
        }
    }
}

proof fn lemma_tokens_from_shift(p: Seq<char>, r: Seq<char>, i: int)
    requires
        0 <= i,
    ensures
        tokens_from(p + r, p.len() + i) == tokens_from(r, i),
    decreases r.len() - i,
{
    let s = p + r;
    let n = p.len() as int;
    if i < r.len() {
        assert(s[n + i] == r[i]);
        if i + 1 < r.len() {
            assert(s[n + i + 1] == r[i + 1]);
        }
        if r[i] == '/' {
            if i + 1 < r.len() && r[i + 1] == '/' {
                lemma_find_char_shift(p, r, i + 1, '\n');
                lemma_find_char_bounds(r, i + 1, '\n');
                lemma_tokens_from_shift(p, r, comment_end(r, i + 1));
            } else {
                lemma_tokens_from_shift(p, r, i + 1);
            }
        } else if r[i] == '"' {
            lemma_find_char_shift(p, r, i + 1, '"');
            lemma_find_char_bounds(r, i + 1, '"');
            let j = find_char(r, i + 1, '"');
            assert(s.subrange(n + i + 1, n + j) == r.subrange(i + 1, j));
            lemma_tokens_from_shift(p, r, quote_end(r, i + 1));
        } else {
            lemma_tokens_from_shift(p, r, i + 1);
        }
    }
}

/// Outside strings, any character other than a quote, a brace or a slash
/// only separates tokens: spaces, tabs and newlines alike can be put in
/// front of a text without changing its tokens.
pub proof fn lemma_separator_ignored(c: char, r: Seq<char>)
    requires
        c != '"',
        c != '{',
        c != '}',
        c != '/',
    ensures
        spec_tokenize(seq![c] + r) == spec_tokenize(r),
{
    let q = seq![c];
    assert((q + r)[0] == c);
    lemma_tokens_from_shift(q, r, 0);
}

/// A `//` comment line is skipped: putting one in front of a text does not
/// change the tokens of the text.
pub proof fn lemma_comment_line_ignored(c: Seq<char>, r: Seq<char>)
    requires
        !c.contains('\n'),
    ensures
        spec_tokenize(seq!['/', '/'] + c + seq!['\n'] + r) == spec_tokenize(r),
{
    let q = seq!['/', '/'] + c + seq!['\n'];
    let s = q + r;
    assert(s == seq!['/', '/'] + c + seq!['\n'] + r);
    let e: int = c.len() as int + 2;
    assert(s[0] == '/' && s[1] == '/');
    assert(s[e] == '\n');
    lemma_find_char_bounds(s, 1, '\n');
    let f = find_char(s, 1, '\n');
    assert(f <= e);
    if f < e {
        if f >= 2 {
            assert(s[f] == c[f - 2]);
            assert(c.contains(c[f - 2]));
        }
    }
    assert(f == e);
    assert(comment_end(s, 1) == q.len());
    lemma_tokens_from_shift(q, r, 0);
}

/// The strings of a vector, taken by their views.
pub open spec fn strings_view(v: Seq<String>) -> Seq<Seq<char>> {
    v.map_values(|s: String| s@)
}

/// Extract ALL Map values under modes -> coop from Valve KeyValues text.
/// Returns all Map values found (in order), or empty vec if none.
pub fn parse_coop_maps(raw: &str) -> (maps: Vec<String>)
    ensures
        strings_view(maps@) == spec_coop_maps(spec_tokenize(raw@)),
{
    let tokens = tokenize(raw);
    let ghost t = tokens_view(tokens@);
    let len = tokens.len();
    let mut pos: usize = 0;

    // Find "modes"
    while pos < len
        invariant_except_break
            modes_end(t, pos as int) == modes_end(t, 0),
        invariant
            len == tokens@.len() == t.len(),
            t == tokens_view(tokens@),
            pos <= len,
        ensures
            pos == modes_end(t, 0),
        decreases len - pos,
    {
        let found = match &tokens[pos] {
            Token::String(s) => string_is(s, "modes"),
            _ => false,
        };
        if found {
            pos += 1;
            break;
        }
        pos += 1;
    }
    if pos >= len {
        return vec![];
    }
    // Expect '{'
    if !expect_brace(tokens.as_slice(), &mut pos, true) {
        return vec![];
    }

    // Search inside modes block for "coop"
    let mut depth: usize = 1;
    while depth > 0 && pos < len
        invariant
            len == tokens@.len() == t.len(),
            t == tokens_view(tokens@),
            1 <= pos <= len,
            depth <= pos,
            t == spec_tokenize(raw@),
            scan_modes(t, pos as int, depth as nat) == spec_coop_maps(t),
        decreases len - pos,
    {
        proof {
            assert(t[pos as int] == tokens@[pos as int]@);
            if pos + 1 < len {
                assert(t[pos + 1] == tokens@[pos + 1]@);
            }
        }
        match &tokens[pos] {
            Token::OpenBrace => {
                depth += 1;
            },
            Token::CloseBrace => {
                depth -= 1;
            },
            Token::String(s) => {
                if depth == 1 && string_is(s, "coop") {
                    let ghost p0 = pos as int;
                    assert(t[p0] == SpecToken::Str("coop"@));
                    assert(scan_modes(t, p0, 1) == (if p0 + 1 < t.len() && t[p0 + 1] is Open {
                        collect_maps(t, p0 + 2, 1).0
                    } else {
                        Seq::empty()
                    }));
                    pos += 1;
                    if !expect_brace(tokens.as_slice(), &mut pos, true) {
                        return vec![];
                    }
                    assert(pos == p0 + 2);
                    // Collect ALL Map values inside coop block
                    return collect_map_values(tokens.as_slice(), &mut pos);
                }
            },
        }
        pos += 1;
    }
    vec![]
}

/// Collects all "Map" values at any depth inside the current block (see
/// [`collect_maps`]); the caller has already consumed the opening brace, so
/// the walk starts at depth 1.
pub fn collect_map_values(tokens: &[Token], pos: &mut usize) -> (maps: Vec<String>)
    ensures
        strings_view(maps@) == collect_maps(tokens_view(tokens@), *old(pos) as int, 1).0,
        *final(pos) == collect_maps(tokens_view(tokens@), *old(pos) as int, 1).1,
{
    let ghost t = tokens_view(tokens@);
    let ghost start = *pos;
    let len = tokens.len();
    let mut maps: Vec<String> = Vec::new();
    let mut depth: u128 = 1;
    while depth > 0 && *pos < len
        invariant
            len == tokens@.len() == t.len(),
            t == tokens_view(tokens@),
            start <= *pos,
            start <= len ==> *pos <= len,
            depth <= *pos - start + 1,
            strings_view(maps@) + collect_maps(t, *pos as int, depth as nat).0 == collect_maps(
                t,
                start as int,
                1,
            ).0,
            collect_maps(t, *pos as int, depth as nat).1 == collect_maps(t, start as int, 1).1,
        decreases len - *pos,
    {
        let ghost old_maps = maps@;
        proof {
            assert(t[*pos as int] == tokens@[*pos as int]@);
            if *pos + 1 < len {
                assert(t[*pos + 1] == tokens@[*pos + 1]@);
            }
        }
        match &tokens[*pos] {
            Token::OpenBrace => {
                depth += 1;
                *pos += 1;
            },
            Token::CloseBrace => {
                depth -= 1;
                *pos += 1;
            },
            Token::String(s) => {
                let mut taken = false;
                if string_is(s, "Map") && *pos + 1 < len {
                    match &tokens[*pos + 1] {
                        Token::String(val) => {
                            maps.push(val.clone());
                            proof {
                                assert(strings_view(maps@) == strings_view(old_maps).push(val@));
                            }
                            taken = true;
                        },
                        _ => {},
                    }
                }
                if taken {
                    *pos += 2;
                } else {
                    *pos += 1;
                }
            },
        }
    }
    maps
}

/// The map codes of a VPK file: those of its mission text when the file can
/// be read and has one, none otherwise.
pub open spec fn spec_vpk_coop_maps(data: Seq<u8>) -> Seq<Seq<char>> {
    match crate::vpk::read_vpk(data) {
        Ok(contents) => match contents.mission {
            Some(text) => spec_coop_maps(spec_tokenize(text)),
            None => Seq::empty(),
        },
        Err(_) => Seq::empty(),
    }
}

/// Reads the VPK file `data` and the map codes of its mission text; a file
/// that cannot be read, or has no mission text, has none.
pub fn vpk_coop_maps(data: &[u8]) -> (maps: Vec<String>)
    ensures
        strings_view(maps@) == spec_vpk_coop_maps(data@),
{
    match crate::vpk::VPKInfo::new(data) {
        Ok(info) => match info.get_mission() {
            Ok(mission) => parse_coop_maps(mission.as_str()),
            Err(_) => Vec::new(),
        },
        Err(_) => Vec::new(),
    }
}

/// The map codes of a VPK file that lists one mission file stored in the
/// file itself are those of that file's text.
pub proof fn lemma_single_mission_vpk_coop_maps(name: Seq<u8>, text: Seq<u8>)
    requires
        name.len() > 0,
        forall|i: int| 0 <= i < name.len() ==> name[i] != 0,
        name.len() + 35 <= u32::MAX,
        text.len() <= u32::MAX,
    ensures
        spec_vpk_coop_maps(crate::vpk::single_mission_vpk(name, text)) == spec_coop_maps(
            spec_tokenize(crate::vpk::file_text(text)),
        ),
{
    crate::vpk::lemma_single_mission_vpk_reads_back(name, text);
}

} // verus!
