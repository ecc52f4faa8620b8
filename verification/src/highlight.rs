use vstd::prelude::*;
use vstd::string::StrSliceExecFns;
use vstd::string::StringExecFns;

use crate::ansi::{ansi_named_prefix, ansi_reset, paint_blue, paint_cyan, paint_green, paint_yellow};
use crate::pointer::is_digit;

verus! {

broadcast use vstd::seq::group_seq_axioms;

/// The characters JSON treats as insignificant whitespace.
pub open spec fn is_ws(c: char) -> bool {
    c == ' ' || c == '\t' || c == '\n' || c == '\r'
}

/// The characters that may continue a number token.
pub open spec fn is_num_char(c: char) -> bool {
    is_digit(c) || c == '+' || c == '-' || c == '.' || c == 'e' || c == 'E'
}

/// The characters that may open a number token.
pub open spec fn is_num_start(c: char) -> bool {
    is_digit(c) || c == '-'
}

/// The index just past the string literal whose opening quote stands before
/// `i`: a backslash carries the next character, and an unterminated literal
/// runs to the end of the text.
pub open spec fn string_end(s: Seq<char>, i: int) -> int
    decreases s.len() - i,
{
    if i < 0 || i >= s.len() {
        s.len() as int
    } else if s[i] == '"' {
        i + 1
    } else if s[i] == '\\' {
        if i + 1 < s.len() {
            string_end(s, i + 2)
        } else {
            s.len() as int
        }
    } else {
        string_end(s, i + 1)
    }
}

/// The index of the first character at or after `i` that cannot continue a
/// number token.
pub open spec fn number_end(s: Seq<char>, i: int) -> int
    decreases s.len() - i,
{
    if i < 0 || i >= s.len() || !is_num_char(s[i]) {
        i
    } else {
        number_end(s, i + 1)
    }
}

/// The index of the first character at or after `i` that is not whitespace.
pub open spec fn ws_end(s: Seq<char>, i: int) -> int
    decreases s.len() - i,
{
    if i < 0 || i >= s.len() || !is_ws(s[i]) {
        i
    } else {
        ws_end(s, i + 1)
    }
}

/// Whether the string literal ending at `e` is an object key: the next
/// non-whitespace character is a colon.
pub open spec fn is_key_at(s: Seq<char>, e: int) -> bool {
    let w = ws_end(s, e);
    w < s.len() && s[w] == ':'
}

/// The length of the `true`, `false` or `null` literal starting at `i`, and
/// zero where none starts there.
pub open spec fn literal_len(s: Seq<char>, i: int) -> int {
    if 0 <= i && i + 4 <= s.len() && s.subrange(i, i + 4) == seq!['t', 'r', 'u', 'e'] {
        4
    } else if 0 <= i && i + 5 <= s.len() && s.subrange(i, i + 5) == seq!['f', 'a', 'l', 's', 'e'] {
        5
    } else if 0 <= i && i + 4 <= s.len() && s.subrange(i, i + 4) == seq!['n', 'u', 'l', 'l'] {
        4
    } else {
        0
    }
}

pub proof fn lemma_string_end_bounds(s: Seq<char>, i: int)
    requires
        0 <= i <= s.len(),
    ensures
        i <= string_end(s, i) <= s.len(),
    decreases s.len() - i,
{
    if i < s.len() && s[i] == '\\' && i + 1 < s.len() {
        lemma_string_end_bounds(s, i + 2);
    } else if i < s.len() && s[i] != '"' && s[i] != '\\' {
        lemma_string_end_bounds(s, i + 1);
    }
}

pub proof fn lemma_number_end_bounds(s: Seq<char>, i: int)
    requires
        0 <= i <= s.len(),
    ensures
        i <= number_end(s, i) <= s.len(),
    decreases s.len() - i,
{
    if i < s.len() && is_num_char(s[i]) {
        lemma_number_end_bounds(s, i + 1);
    }
}

/// The fixed scheme of the syntax colorizer: a string whose next
/// non-whitespace character is a colon is an object key and turns blue, any
/// other string green, a number yellow, the word literals `true`, `false`
/// and `null` cyan, and everything else stays as it stands. Color codes wrap
/// the tokens; the text itself is only copied, never reordered or re-spaced.
pub open spec fn colorize_from(s: Seq<char>, i: int) -> Seq<char>
    decreases s.len() - i,
{
    if i < 0 || i >= s.len() {
        Seq::empty()
    } else if s[i] == '"' {
        let e = string_end(s, i + 1);
        let code = if is_key_at(s, e) {
            '4'
        } else {
            '2'
        };
        proof {
            lemma_string_end_bounds(s, i + 1);
        }
        ansi_named_prefix(code) + s.subrange(i, e) + ansi_reset() + colorize_from(s, e)
    } else if literal_len(s, i) > 0 {
        let e = i + literal_len(s, i);
        ansi_named_prefix('6') + s.subrange(i, e) + ansi_reset() + colorize_from(s, e)
    } else if is_num_start(s[i]) {
        let e = number_end(s, i + 1);
        proof {
            lemma_number_end_bounds(s, i + 1);
        }
        ansi_named_prefix('3') + s.subrange(i, e) + ansi_reset() + colorize_from(s, e)
    } else {
        seq![s[i]] + colorize_from(s, i + 1)
    }
}

/// The whole text with syntax coloring added and nothing else changed.
pub open spec fn colorize_text(s: Seq<char>) -> Seq<char> {
    colorize_from(s, 0)
}

fn scan_string_end(s: &str, j: usize) -> (e: usize)
    requires
        j as int <= s@.len(),
    ensures
        e as int == string_end(s@, j as int),
        j <= e,
        e as int <= s@.len(),
{
    let n = s.unicode_len();
    let mut k: usize = j;
    while k < n
        invariant
            n == s@.len(),
            j <= k <= n,
            string_end(s@, j as int) == string_end(s@, k as int),
        decreases n - k,
    {
        let c = s.get_char(k);
        if c == '"' {
            return k + 1;
        }
        if c == '\\' {
            if k + 1 < n {
                k = k + 2;
            } else {
                return n;
            }
        } else {
            k = k + 1;
        }
    }
    n
}

fn scan_number_end(s: &str, j: usize) -> (e: usize)
    requires
        j as int <= s@.len(),
    ensures
        e as int == number_end(s@, j as int),
        j <= e,
        e as int <= s@.len(),
{
    let n = s.unicode_len();
    let mut k: usize = j;
    while k < n
        invariant
            n == s@.len(),
            j <= k <= n,
            number_end(s@, j as int) == number_end(s@, k as int),
        decreases n - k,
    {
        let c = s.get_char(k);
        let cu = c as u32;
        let numeric = (48 <= cu && cu <= 57) || c == '+' || c == '-' || c == '.' || c == 'e' || c
            == 'E';
        if !numeric {
            return k;
        }
        k = k + 1;
    }
    n
}

fn scan_ws_end(s: &str, j: usize) -> (e: usize)
    requires
        j as int <= s@.len(),
    ensures
        e as int == ws_end(s@, j as int),
        j <= e,
        e as int <= s@.len(),
{
    let n = s.unicode_len();
    let mut k: usize = j;
    while k < n
        invariant
            n == s@.len(),
            j <= k <= n,
            ws_end(s@, j as int) == ws_end(s@, k as int),
        decreases n - k,
    {
        let c = s.get_char(k);
        if !(c == ' ' || c == '\t' || c == '\n' || c == '\r') {
            return k;
        }
        k = k + 1;
    }
    n
}

fn scan_literal(s: &str, i: usize) -> (l: usize)
    requires
        i as int <= s@.len(),
    ensures
        l as int == literal_len(s@, i as int),
        i + l <= s@.len(),
{
    let n = s.unicode_len();
    if n >= 4 && i <= n - 4 && s.get_char(i) == 't' && s.get_char(i + 1) == 'r' && s.get_char(
        i + 2,
    ) == 'u' && s.get_char(i + 3) == 'e' {
        proof {
            assert(s@.subrange(i as int, i as int + 4) =~= seq!['t', 'r', 'u', 'e']);
        }
        4
    } else if n >= 5 && i <= n - 5 && s.get_char(i) == 'f' && s.get_char(i + 1) == 'a'
        && s.get_char(i + 2) == 'l' && s.get_char(i + 3) == 's' && s.get_char(i + 4) == 'e' {
        proof {
            assert(s@.subrange(i as int, i as int + 5) =~= seq!['f', 'a', 'l', 's', 'e']);
        }
        5
    } else if n >= 4 && i <= n - 4 && s.get_char(i) == 'n' && s.get_char(i + 1) == 'u'
        && s.get_char(i + 2) == 'l' && s.get_char(i + 3) == 'l' {
        proof {
            assert(s@.subrange(i as int, i as int + 4) =~= seq!['n', 'u', 'l', 'l']);
        }
        4
    } else {
        proof {
            if literal_len(s@, i as int) == 4 && s@.subrange(i as int, i as int + 4) == seq![
                't',
                'r',
                'u',
                'e',
            ] {
                assert(s@[i as int] == 't');
                assert(s@[i as int + 1] == 'r');
                assert(s@[i as int + 2] == 'u');
                assert(s@[i as int + 3] == 'e');
            }
            if literal_len(s@, i as int) == 5 {
                assert(s@[i as int] == 'f');
                assert(s@[i as int + 1] == 'a');
                assert(s@[i as int + 2] == 'l');
                assert(s@[i as int + 3] == 's');
                assert(s@[i as int + 4] == 'e');
            }
            if literal_len(s@, i as int) == 4 && s@.subrange(i as int, i as int + 4) == seq![
                'n',
                'u',
                'l',
                'l',
            ] {
                assert(s@[i as int] == 'n');
                assert(s@[i as int + 1] == 'u');
                assert(s@[i as int + 2] == 'l');
                assert(s@[i as int + 3] == 'l');
            }
        }
        0
    }
}

/// The text of one line with generic JSON syntax coloring added: nothing is
/// parsed into a document and nothing is reordered or re-spaced, color codes
/// are only inserted around the recognized tokens.
pub fn colorize_line(s: &str) -> (r: String)
    ensures
        r@ == colorize_text(s@),
{
    let n = s.unicode_len();
    let mut out = String::new();
    let mut i: usize = 0;
    while i < n
        invariant
            n == s@.len(),
            0 <= i <= n,
            out@ + colorize_from(s@, i as int) == colorize_text(s@),
        decreases n - i,
    {
        let c = s.get_char(i);
        let lit = scan_literal(s, i);
        if c == '"' {
            let e = scan_string_end(s, i + 1);
            let tok = s.substring_char(i, e);
            let w = scan_ws_end(s, e);
            let is_key = w < n && s.get_char(w) == ':';
            let painted = if is_key {
                paint_blue(tok)
            } else {
                paint_green(tok)
            };
            out.append(painted.as_str());
            proof {
                assert(out@ + colorize_from(s@, e as int) =~= colorize_text(s@));
            }
            i = e;
        } else if lit > 0 {
            let e = i + lit;
            let tok = s.substring_char(i, e);
            let painted = paint_cyan(tok);
            out.append(painted.as_str());
            proof {
                assert(out@ + colorize_from(s@, e as int) =~= colorize_text(s@));
            }
            i = e;
        } else {
            let cu = c as u32;
            if (48 <= cu && cu <= 57) || c == '-' {
                let e = scan_number_end(s, i + 1);
                let tok = s.substring_char(i, e);
                let painted = paint_yellow(tok);
                out.append(painted.as_str());
                proof {
                    assert(out@ + colorize_from(s@, e as int) =~= colorize_text(s@));
                }
                i = e;
            } else {
                out.push(c);
                proof {
                    assert(out@ + colorize_from(s@, i as int + 1) =~= colorize_text(s@));
                }
                i = i + 1;
            }
        }
    }
    proof {
        assert(out@ =~= colorize_text(s@));
    }
    out
}

/// The visible text of a styled piece of output: every escape sequence, from
/// its escape character through the `m` that ends it, is dropped, and every
/// other character kept.
pub open spec fn strip_styling(s: Seq<char>) -> Seq<char>
    decreases s.len(),
{
    if s.len() == 0 {
        Seq::empty()
    } else if s[0] == '\u{1b}' {
        strip_code(s.drop_first())
    } else {
        seq![s[0]] + strip_styling(s.drop_first())
    }
}

pub open spec fn strip_code(s: Seq<char>) -> Seq<char>
    decreases s.len(),
{
    if s.len() == 0 {
        Seq::empty()
    } else if s[0] == 'm' {
        strip_styling(s.drop_first())
    } else {
        strip_code(s.drop_first())
    }
}

pub proof fn lemma_strip_plain(t: Seq<char>, rest: Seq<char>)
    requires
        forall|i: int| 0 <= i < t.len() ==> #[trigger] t[i] != '\u{1b}',
    ensures
        strip_styling(t + rest) == t + strip_styling(rest),
    decreases t.len(),
{
    if t.len() == 0 {
        assert(t + rest =~= rest);
        assert(t + strip_styling(rest) =~= strip_styling(rest));
    } else {
        assert((t + rest)[0] == t[0]);
        assert((t + rest).drop_first() =~= t.drop_first() + rest);
        lemma_strip_plain(t.drop_first(), rest);
        assert(strip_styling(t + rest) =~= t + strip_styling(rest));
    }
}

pub proof fn lemma_strip_named_prefix(code: char, rest: Seq<char>)
    requires
        code != 'm',
    ensures
        strip_styling(ansi_named_prefix(code) + rest) == strip_styling(rest),
{
    let whole = ansi_named_prefix(code) + rest;
    let t4 = seq!['[', '3', code, 'm'] + rest;
    let t3 = seq!['3', code, 'm'] + rest;
    let t2 = seq![code, 'm'] + rest;
    let t1 = seq!['m'] + rest;
    assert(whole[0] == '\u{1b}');
    assert(whole.drop_first() =~= t4);
    assert(t4[0] == '[');
    assert(t4.drop_first() =~= t3);
    assert(t3[0] == '3');
    assert(t3.drop_first() =~= t2);
    assert(t2[0] == code);
    assert(t2.drop_first() =~= t1);
    assert(t1[0] == 'm');
    assert(t1.drop_first() =~= rest);
    assert(strip_styling(whole) == strip_code(t4));
    assert(strip_code(t4) == strip_code(t3));
    assert(strip_code(t3) == strip_code(t2));
    assert(strip_code(t2) == strip_code(t1));
    assert(strip_code(t1) == strip_styling(rest));
}

pub proof fn lemma_strip_reset(rest: Seq<char>)
    ensures
        strip_styling(ansi_reset() + rest) == strip_styling(rest),
{
    let whole = ansi_reset() + rest;
    let t3 = seq!['[', '0', 'm'] + rest;
    let t2 = seq!['0', 'm'] + rest;
    let t1 = seq!['m'] + rest;
    assert(whole[0] == '\u{1b}');
    assert(whole.drop_first() =~= t3);
    assert(t3[0] == '[');
    assert(t3.drop_first() =~= t2);
    assert(t2[0] == '0');
    assert(t2.drop_first() =~= t1);
    assert(t1[0] == 'm');
    assert(t1.drop_first() =~= rest);
    assert(strip_styling(whole) == strip_code(t3));
    assert(strip_code(t3) == strip_code(t2));
    assert(strip_code(t2) == strip_code(t1));
    assert(strip_code(t1) == strip_styling(rest));
}

proof fn lemma_colorize_from_preserves(s: Seq<char>, i: int)
    requires
        0 <= i <= s.len(),
        forall|k: int| 0 <= k < s.len() ==> #[trigger] s[k] != '\u{1b}',
    ensures
        strip_styling(colorize_from(s, i)) == s.skip(i),
    decreases s.len() - i,
{
    if i >= s.len() {
        assert(s.skip(i) =~= Seq::<char>::empty());
    } else if s[i] == '"' || literal_len(s, i) > 0 || is_num_start(s[i]) {
        let e = if s[i] == '"' {
            string_end(s, i + 1)
        } else if literal_len(s, i) > 0 {
            i + literal_len(s, i)
        } else {
            number_end(s, i + 1)
        };
        let code = if s[i] == '"' {
            if is_key_at(s, string_end(s, i + 1)) {
                '4'
            } else {
                '2'
            }
        } else if literal_len(s, i) > 0 {
            '6'
        } else {
            '3'
        };
        lemma_string_end_bounds(s, i + 1);
        lemma_number_end_bounds(s, i + 1);
        let tok = s.subrange(i, e);
        assert(colorize_from(s, i) =~= ansi_named_prefix(code) + (tok + (ansi_reset()
            + colorize_from(s, e))));
        lemma_strip_named_prefix(code, tok + (ansi_reset() + colorize_from(s, e)));
        assert(forall|k: int| 0 <= k < tok.len() ==> #[trigger] tok[k] != '\u{1b}');
        lemma_strip_plain(tok, ansi_reset() + colorize_from(s, e));
        lemma_strip_reset(colorize_from(s, e));
        lemma_colorize_from_preserves(s, e);
        assert(strip_styling(colorize_from(s, i)) =~= tok + s.skip(e));
        assert(tok + s.skip(e) =~= s.skip(i));
    } else {
        assert(colorize_from(s, i) =~= seq![s[i]] + colorize_from(s, i + 1));
        assert((seq![s[i]] + colorize_from(s, i + 1))[0] == s[i]);
        assert((seq![s[i]] + colorize_from(s, i + 1)).drop_first() =~= colorize_from(s, i + 1));
        lemma_colorize_from_preserves(s, i + 1);
        assert(strip_styling(colorize_from(s, i)) =~= seq![s[i]] + s.skip(i + 1));
        assert(seq![s[i]] + s.skip(i + 1) =~= s.skip(i));
    }
}

/// Stripping the styling from a colorized line gives the line back, byte for
/// byte: the colorizer reorders nothing, re-spaces nothing and re-serializes
/// nothing. It holds of any text that carries no escape character of its own,
/// as no JSON document does.
pub proof fn lemma_colorize_preserves_text(s: Seq<char>)
    requires
        forall|k: int| 0 <= k < s.len() ==> #[trigger] s[k] != '\u{1b}',
    ensures
        strip_styling(colorize_text(s)) == s,
{
    lemma_colorize_from_preserves(s, 0);
    assert(s.skip(0) =~= s);
}

} // verus!
