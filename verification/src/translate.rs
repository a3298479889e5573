use vstd::prelude::*;
use vstd::string::StrSliceExecFns;

use crate::opcode::Opcode;
use crate::text::{push_char, string_with_capacity};

verus! {

/// The opcode encoded by one Brainfuck source character, if any.
pub open spec fn bf_opcode(c: char) -> Option<Opcode> {
    if c == '>' {
        Some(Opcode::MoveRight)
    } else if c == '<' {
        Some(Opcode::MoveLeft)
    } else if c == '+' {
        Some(Opcode::Increment)
    } else if c == '-' {
        Some(Opcode::Decrement)
    } else if c == '.' {
        Some(Opcode::Output)
    } else if c == ',' {
        Some(Opcode::Input)
    } else if c == '[' {
        Some(Opcode::LoopOpen)
    } else if c == ']' {
        Some(Opcode::LoopClose)
    } else {
        None
    }
}

/// The opcodes encoded by the Brainfuck characters of `s` from position `i`
/// on, in source order; unrecognized characters are dropped.
pub open spec fn bf_from(s: Seq<char>, i: int) -> Seq<Opcode>
    decreases s.len() - i,
{
    if i < 0 || i >= s.len() {
        Seq::empty()
    } else {
        (match bf_opcode(s[i]) {
            Some(op) => seq![op],
            None => Seq::empty(),
        }) + bf_from(s, i + 1)
    }
}

/// The canonical program encoded by Brainfuck source text.
pub open spec fn translate_brainfuck(s: Seq<char>) -> Seq<Opcode> {
    bf_from(s, 0)
}

/// Maps each of the eight Brainfuck symbols to its opcode, one for one, and
/// drops every other character.
pub fn brainfuck_to_bytecode(code: &str) -> (r: Vec<Opcode>)
    ensures
        r@ == translate_brainfuck(code@),
{
    let n: usize = code.unicode_len();
    let mut r: Vec<Opcode> = Vec::new();
    let mut i: usize = 0;
    while i < n
        invariant
            n == code@.len(),
            i <= n,
            translate_brainfuck(code@) == r@ + bf_from(code@, i as int),
        decreases n - i,
    {
        let c = code.get_char(i);
        let op: Option<Opcode> = if c == '>' {
            Some(Opcode::MoveRight)
        } else if c == '<' {
            Some(Opcode::MoveLeft)
        } else if c == '+' {
            Some(Opcode::Increment)
        } else if c == '-' {
            Some(Opcode::Decrement)
        } else if c == '.' {
            Some(Opcode::Output)
        } else if c == ',' {
            Some(Opcode::Input)
        } else if c == '[' {
            Some(Opcode::LoopOpen)
        } else if c == ']' {
            Some(Opcode::LoopClose)
        } else {
            None
        };
        proof {
            assert(op == bf_opcode(code@[i as int]));
        }
        match op {
            Some(o) => {
                let ghost r0 = r@;
                r.push(o);
                proof {
                    assert(bf_from(code@, i as int) == seq![o] + bf_from(code@, i + 1));
                    assert(r0 + (seq![o] + bf_from(code@, i + 1)) =~= r@ + bf_from(
                        code@,
                        i + 1,
                    ));
                }
            },
            None => {
                proof {
                    assert(bf_from(code@, i as int) =~= bf_from(code@, i + 1));
                }
            },
        }
        i = i + 1;
    }
    proof {
        assert(r@ =~= translate_brainfuck(code@));
    }
    r
}

/// True of the three symbols of the Short-Ook alphabet.
pub open spec fn is_short_symbol(c: char) -> bool {
    c == '.' || c == '?' || c == '!'
}

/// The Short-Ook symbols of `s`, in order; every other character is dropped.
pub open spec fn short_symbols(s: Seq<char>) -> Seq<char>
    decreases s.len(),
{
    if s.len() == 0 {
        Seq::empty()
    } else {
        short_symbols(s.drop_last()) + (if is_short_symbol(s.last()) {
            seq![s.last()]
        } else {
            Seq::empty()
        })
    }
}

/// The pair-to-opcode table shared by the Ook and Short-Ook dialects, keyed
/// by the punctuation symbol of each half of the pair.
pub open spec fn pair_opcode(first: char, second: char) -> Option<Opcode> {
    if first == '.' && second == '?' {
        Some(Opcode::MoveRight)
    } else if first == '?' && second == '.' {
        Some(Opcode::MoveLeft)
    } else if first == '.' && second == '.' {
        Some(Opcode::Increment)
    } else if first == '!' && second == '!' {
        Some(Opcode::Decrement)
    } else if first == '!' && second == '.' {
        Some(Opcode::Output)
    } else if first == '.' && second == '!' {
        Some(Opcode::Input)
    } else if first == '!' && second == '?' {
        Some(Opcode::LoopOpen)
    } else if first == '?' && second == '!' {
        Some(Opcode::LoopClose)
    } else {
        None
    }
}

/// The opcodes encoded by consecutive symbol pairs of `cs` from position `i`
/// on: pair `(cs[i], cs[i+1])`, then the pairs after it. A trailing unpaired
/// symbol and unrecognized pairs are dropped.
pub open spec fn symbol_pairs_from(cs: Seq<char>, i: int) -> Seq<Opcode>
    decreases cs.len() - i,
{
    if i < 0 || i + 2 > cs.len() {
        Seq::empty()
    } else {
        (match pair_opcode(cs[i], cs[i + 1]) {
            Some(op) => seq![op],
            None => Seq::empty(),
        }) + symbol_pairs_from(cs, i + 2)
    }
}

/// The canonical program encoded by Short-Ook source text.
pub open spec fn translate_short_ook(s: Seq<char>) -> Seq<Opcode> {
    symbol_pairs_from(short_symbols(s), 0)
}

/// The shared Ook/Short-Ook pair mapping, executable form.
fn symbol_pair_to_opcode(first: char, second: char) -> (r: Option<Opcode>)
    ensures
        r == pair_opcode(first, second),
{
    if first == '.' && second == '?' {
        Some(Opcode::MoveRight)
    } else if first == '?' && second == '.' {
        Some(Opcode::MoveLeft)
    } else if first == '.' && second == '.' {
        Some(Opcode::Increment)
    } else if first == '!' && second == '!' {
        Some(Opcode::Decrement)
    } else if first == '!' && second == '.' {
        Some(Opcode::Output)
    } else if first == '.' && second == '!' {
        Some(Opcode::Input)
    } else if first == '!' && second == '?' {
        Some(Opcode::LoopOpen)
    } else if first == '?' && second == '!' {
        Some(Opcode::LoopClose)
    } else {
        None
    }
}

/// Keeps only the `.?!` symbols of the text, groups them into consecutive
/// pairs, and maps each recognized pair to its opcode; a trailing unpaired
/// symbol is dropped.
pub fn parse_short_ook_commands(code: &str) -> (r: Vec<Opcode>)
    ensures
        r@ == translate_short_ook(code@),
{
    let n: usize = code.unicode_len();
    let mut syms: Vec<char> = Vec::new();
    let mut i: usize = 0;
    while i < n
        invariant
            n == code@.len(),
            i <= n,
            syms@ == short_symbols(code@.take(i as int)),
        decreases n - i,
    {
        let c = code.get_char(i);
        if c == '.' || c == '?' || c == '!' {
            syms.push(c);
        }
        proof {
            assert(code@.take(i + 1).drop_last() =~= code@.take(i as int));
            assert(code@.take(i + 1).last() == code@[i as int]);
            assert(syms@ =~= short_symbols(code@.take(i + 1)));
        }
        i = i + 1;
    }
    proof {
        assert(code@.take(n as int) =~= code@);
    }
    let m: usize = syms.len();
    let mut r: Vec<Opcode> = Vec::new();
    let mut j: usize = 0;
    while j < m && j + 1 < m
        invariant
            m == syms@.len(),
            j <= m,
            translate_short_ook(code@) == r@ + symbol_pairs_from(syms@, j as int),
        decreases m - j,
    {
        let op = symbol_pair_to_opcode(syms[j], syms[j + 1]);
        let ghost r0 = r@;
        match op {
            Some(o) => {
                r.push(o);
                proof {
                    assert(symbol_pairs_from(syms@, j as int) == seq![o] + symbol_pairs_from(
                        syms@,
                        j + 2,
                    ));
                    assert(r0 + (seq![o] + symbol_pairs_from(syms@, j + 2)) =~= r@
                        + symbol_pairs_from(syms@, j + 2));
                }
            },
            None => {
                proof {
                    assert(symbol_pairs_from(syms@, j as int) =~= symbol_pairs_from(syms@, j + 2));
                }
            },
        }
        j = j + 2;
    }
    proof {
        assert(symbol_pairs_from(syms@, j as int) == Seq::<Opcode>::empty());
        assert(r@ =~= translate_short_ook(code@));
    }
    r
}

/// True of the characters that separate Ook tokens: the Unicode white-space
/// code points, the set std's `split_whitespace` splits on.
pub open spec fn is_space(c: char) -> bool {
    c == '\t' || c == '\n' || c == '\u{B}' || c == '\u{C}' || c == '\r' || c == ' ' || c
        == '\u{85}' || c == '\u{A0}' || c == '\u{1680}' || c == '\u{2000}' || c == '\u{2001}' || c
        == '\u{2002}' || c == '\u{2003}' || c == '\u{2004}' || c == '\u{2005}' || c == '\u{2006}'
        || c == '\u{2007}' || c == '\u{2008}' || c == '\u{2009}' || c == '\u{200A}' || c
        == '\u{2028}' || c == '\u{2029}' || c == '\u{202F}' || c == '\u{205F}' || c == '\u{3000}'
}

/// Executable form of `is_space`.
fn is_space_char(c: char) -> (r: bool)
    ensures
        r == is_space(c),
{
    c == '\t' || c == '\n' || c == '\u{B}' || c == '\u{C}' || c == '\r' || c == ' ' || c
        == '\u{85}' || c == '\u{A0}' || c == '\u{1680}' || c == '\u{2000}' || c == '\u{2001}' || c
        == '\u{2002}' || c == '\u{2003}' || c == '\u{2004}' || c == '\u{2005}' || c == '\u{2006}'
        || c == '\u{2007}' || c == '\u{2008}' || c == '\u{2009}' || c == '\u{200A}' || c
        == '\u{2028}' || c == '\u{2029}' || c == '\u{202F}' || c == '\u{205F}' || c == '\u{3000}'
}

/// The whitespace-separated words of `s` from position `i` on, where `cur` is
/// the partial word read so far (the state of a left-to-right scanner).
pub open spec fn words_from(s: Seq<char>, i: int, cur: Seq<char>) -> Seq<Seq<char>>
    decreases s.len() - i,
{
    if i < 0 || i >= s.len() {
        if cur.len() > 0 {
            seq![cur]
        } else {
            Seq::empty()
        }
    } else if is_space(s[i]) {
        (if cur.len() > 0 {
            seq![cur]
        } else {
            Seq::empty()
        }) + words_from(s, i + 1, Seq::empty())
    } else {
        words_from(s, i + 1, cur.push(s[i]))
    }
}

/// The whitespace-separated words of `s`.
pub open spec fn words(s: Seq<char>) -> Seq<Seq<char>> {
    words_from(s, 0, Seq::empty())
}

/// The punctuation symbol of a valid Ook token (`Ook.`, `Ook?` or `Ook!`), if
/// the word is one.
pub open spec fn ook_token_symbol(w: Seq<char>) -> Option<char> {
    if w.len() == 4 && w[0] == 'O' && w[1] == 'o' && w[2] == 'k' && is_short_symbol(w[3]) {
        Some(w[3])
    } else {
        None
    }
}

/// The opcodes encoded by consecutive word pairs of `ws` from position `i`
/// on. A pair that is not two valid Ook tokens forming a recognized pair is
/// dropped, as is a trailing unpaired word.
pub open spec fn word_pairs_from(ws: Seq<Seq<char>>, i: int) -> Seq<Opcode>
    decreases ws.len() - i,
{
    if i < 0 || i + 2 > ws.len() {
        Seq::empty()
    } else {
        (match (ook_token_symbol(ws[i]), ook_token_symbol(ws[i + 1])) {
            (Some(a), Some(b)) => match pair_opcode(a, b) {
                Some(op) => seq![op],
                None => Seq::empty(),
            },
            _ => Seq::empty(),
        }) + word_pairs_from(ws, i + 2)
    }
}

/// The canonical program encoded by Ook source text.
pub open spec fn translate_ook(s: Seq<char>) -> Seq<Opcode> {
    word_pairs_from(words(s), 0)
}

/// Executable form of `ook_token_symbol`.
fn ook_word_symbol(w: &Vec<char>) -> (r: Option<char>)
    ensures
        r == ook_token_symbol(w@),
{
    if w.len() == 4 {
        let c3 = w[3];
        if w[0] == 'O' && w[1] == 'o' && w[2] == 'k' && (c3 == '.' || c3 == '?' || c3 == '!') {
            Some(c3)
        } else {
            None
        }
    } else {
        None
    }
}

/// Tokenizes the text on whitespace, groups the words into consecutive pairs,
/// and maps each recognized Ook token pair to its opcode; a trailing unpaired
/// word is dropped.
pub fn ook_to_bytecode(code: &str) -> (r: Vec<Opcode>)
    ensures
        r@ == translate_ook(code@),
{
    let n: usize = code.unicode_len();
    let mut ws: Vec<Vec<char>> = Vec::new();
    let mut cur: Vec<char> = Vec::new();
    let mut i: usize = 0;
    while i < n
        invariant
            n == code@.len(),
            i <= n,
            words(code@) == ws.deep_view() + words_from(code@, i as int, cur@),
        decreases n - i,
    {
        let c = code.get_char(i);
        if is_space_char(c) {
            if cur.len() > 0 {
                let ghost ws0 = ws.deep_view();
                let ghost cur0 = cur@;
                ws.push(cur);
                cur = Vec::new();
                proof {
                    assert(ws.deep_view() =~~= ws0.push(cur0));
                    assert(ws0 + (seq![cur0] + words_from(code@, i + 1, Seq::empty()))
                        =~~= ws.deep_view() + words_from(code@, i + 1, cur@));
                }
            } else {
                proof {
                    assert(cur@ =~= Seq::<char>::empty());
                    assert(Seq::<Seq<char>>::empty() + words_from(code@, i + 1, Seq::empty())
                        =~= words_from(code@, i + 1, cur@));
                }
            }
        } else {
            cur.push(c);
        }
        i = i + 1;
    }
    let ghost ws0 = ws.deep_view();
    let ghost cur0 = cur@;
    if cur.len() > 0 {
        ws.push(cur);
        proof {
            assert(ws.deep_view() =~~= ws0.push(cur0));
            assert(ws0 + seq![cur0] =~~= ws.deep_view());
        }
    } else {
        proof {
            assert(ws0 + Seq::<Seq<char>>::empty() =~~= ws.deep_view());
        }
    }
    proof {
        assert(words(code@) == ws.deep_view());
    }
    let m: usize = ws.len();
    let mut r: Vec<Opcode> = Vec::new();
    let mut j: usize = 0;
    while j < m && j + 1 < m
        invariant
            m == ws@.len(),
            j <= m,
            ws.deep_view().len() == m,
            translate_ook(code@) == r@ + word_pairs_from(ws.deep_view(), j as int),
        decreases m - j,
    {
        let a = ook_word_symbol(&ws[j]);
        let b = ook_word_symbol(&ws[j + 1]);
        proof {
            assert(ws@[j as int]@ =~= ws.deep_view()[j as int]);
            assert(ws@[j + 1]@ =~= ws.deep_view()[j + 1]);
        }
        let op: Option<Opcode> = match (a, b) {
            (Some(x), Some(y)) => symbol_pair_to_opcode(x, y),
            _ => None,
        };
        let ghost r0 = r@;
        match op {
            Some(o) => {
                r.push(o);
                proof {
                    assert(word_pairs_from(ws.deep_view(), j as int) == seq![o] + word_pairs_from(
                        ws.deep_view(),
                        j + 2,
                    ));
                    assert(r0 + (seq![o] + word_pairs_from(ws.deep_view(), j + 2)) =~= r@
                        + word_pairs_from(ws.deep_view(), j + 2));
                }
            },
            None => {
                proof {
                    assert(word_pairs_from(ws.deep_view(), j as int) =~= word_pairs_from(
                        ws.deep_view(),
                        j + 2,
                    ));
                }
            },
        }
        j = j + 2;
    }
    proof {
        assert(word_pairs_from(ws.deep_view(), j as int) == Seq::<Opcode>::empty());
        assert(r@ =~= translate_ook(code@));
    }
    r
}

/// One character after the Short-Ook remapping: the three configured source
/// characters become `.`, `?` and `!`, in that priority order; every other
/// character passes through unchanged.
pub open spec fn remap_char(c: char, dot: char, question: char, bang: char) -> char {
    if c == dot {
        '.'
    } else if c == question {
        '?'
    } else if c == bang {
        '!'
    } else {
        c
    }
}

/// The text after the Short-Ook remapping, character for character.
pub open spec fn remap_text(s: Seq<char>, dot: char, question: char, bang: char) -> Seq<char> {
    s.map_values(|c: char| remap_char(c, dot, question, bang))
}

/// The caller-supplied remapping applied as a pre-pass before the Short-Ook
/// translator: substitutes the three configured characters onto the canonical
/// `.?!` alphabet and leaves everything else unchanged.
pub fn apply_short_ook_mapping(code: &str, dot: char, question: char, bang: char) -> (r: String)
    ensures
        r@ == remap_text(code@, dot, question, bang),
{
    let n: usize = code.unicode_len();
    let mut out: String = string_with_capacity(n);
    let mut i: usize = 0;
    while i < n
        invariant
            n == code@.len(),
            i <= n,
            out@ == remap_text(code@.take(i as int), dot, question, bang),
        decreases n - i,
    {
        let c = code.get_char(i);
        let mapped: char = if c == dot {
            '.'
        } else if c == question {
            '?'
        } else if c == bang {
            '!'
        } else {
            c
        };
        push_char(&mut out, mapped);
        proof {
            assert(out@ =~= remap_text(code@.take(i + 1), dot, question, bang));
        }
        i = i + 1;
    }
    proof {
        assert(code@.take(n as int) =~= code@);
    }
    out
}

/// `bf_from` on foreign text stays empty from any starting position.
proof fn lemma_bf_from_foreign(s: Seq<char>, i: int)
    requires
        forall|k: int| 0 <= k < s.len() ==> bf_opcode(#[trigger] s[k]) is None,
    ensures
        bf_from(s, i) == Seq::<Opcode>::empty(),
    decreases s.len() - i,
{
    if i < 0 || i >= s.len() {
    } else {
        lemma_bf_from_foreign(s, i + 1);
        assert(bf_from(s, i) =~= Seq::<Opcode>::empty());
    }
}

/// Law: foreign text. Brainfuck source in which no character is one of the
/// eight instruction symbols translates to the empty program.
pub proof fn lemma_brainfuck_foreign_empty(s: Seq<char>)
    requires
        forall|k: int| 0 <= k < s.len() ==> bf_opcode(#[trigger] s[k]) is None,
    ensures
        translate_brainfuck(s).len() == 0,
{
    lemma_bf_from_foreign(s, 0);
}

/// Every word the whitespace scanner produces from text free of `.?!` is
/// itself free of `.?!`, so it cannot be a valid Ook token.
proof fn lemma_words_foreign(s: Seq<char>, i: int, cur: Seq<char>)
    requires
        forall|k: int| 0 <= k < s.len() ==> !is_short_symbol(#[trigger] s[k]),
        forall|k: int| 0 <= k < cur.len() ==> !is_short_symbol(#[trigger] cur[k]),
    ensures
        forall|w: int|
            0 <= w < words_from(s, i, cur).len() ==> ook_token_symbol(
                #[trigger] words_from(s, i, cur)[w],
            ) is None,
    decreases s.len() - i,
{
    if i < 0 || i >= s.len() {
    } else if is_space(s[i]) {
        lemma_words_foreign(s, i + 1, Seq::empty());
        let head: Seq<Seq<char>> = if cur.len() > 0 {
            seq![cur]
        } else {
            Seq::empty()
        };
        let rest = words_from(s, i + 1, Seq::empty());
        assert forall|w: int| 0 <= w < words_from(s, i, cur).len() implies ook_token_symbol(
            #[trigger] words_from(s, i, cur)[w],
        ) is None by {
            if w < head.len() {
                assert(words_from(s, i, cur)[w] == cur);
            } else {
                assert(words_from(s, i, cur)[w] == rest[w - head.len()]);
            }
        }
    } else {
        lemma_words_foreign(s, i + 1, cur.push(s[i]));
    }
}

/// Word pairs in which no word is a valid Ook token encode nothing.
proof fn lemma_word_pairs_none(ws: Seq<Seq<char>>, i: int)
    requires
        forall|w: int| 0 <= w < ws.len() ==> ook_token_symbol(#[trigger] ws[w]) is None,
    ensures
        word_pairs_from(ws, i) == Seq::<Opcode>::empty(),
    decreases ws.len() - i,
{
    if i < 0 || i + 2 > ws.len() {
    } else {
        lemma_word_pairs_none(ws, i + 2);
        assert(word_pairs_from(ws, i) =~= Seq::<Opcode>::empty());
    }
}

/// Law: foreign text. Ook source that contains none of the `.?!` punctuation
/// symbols holds no valid Ook token and translates to the empty program.
pub proof fn lemma_ook_foreign_empty(s: Seq<char>)
    requires
        forall|k: int| 0 <= k < s.len() ==> !is_short_symbol(#[trigger] s[k]),
    ensures
        translate_ook(s).len() == 0,
{
    lemma_words_foreign(s, 0, Seq::empty());
    lemma_word_pairs_none(words(s), 0);
}

/// Word pairs and symbol pairs that carry the same symbols, position by
/// position, encode the same opcodes.
proof fn lemma_word_pairs_match_symbol_pairs(ws: Seq<Seq<char>>, cs: Seq<char>, i: int)
    requires
        ws.len() == cs.len(),
        forall|k: int| 0 <= k < ws.len() ==> ook_token_symbol(#[trigger] ws[k]) == Some(cs[k]),
    ensures
        word_pairs_from(ws, i) == symbol_pairs_from(cs, i),
    decreases ws.len() - i,
{
    if i < 0 || i + 2 > ws.len() {
    } else {
        lemma_word_pairs_match_symbol_pairs(ws, cs, i + 2);
        assert(ook_token_symbol(ws[i]) == Some(cs[i]));
        assert(ook_token_symbol(ws[i + 1]) == Some(cs[i + 1]));
    }
}

/// Law: translator equivalence. An Ook source and a Short-Ook source whose
/// token sequences carry the same symbol sequence — the `k`-th Ook word is a
/// valid token whose symbol is the `k`-th Short-Ook symbol — translate to the
/// identical canonical program, because both dialects share one pair mapping.
pub proof fn lemma_translator_equivalence(ook_src: Seq<char>, short_src: Seq<char>)
    requires
        words(ook_src).len() == short_symbols(short_src).len(),
        forall|k: int|
            0 <= k < words(ook_src).len() ==> ook_token_symbol(#[trigger] words(ook_src)[k])
                == Some(short_symbols(short_src)[k]),
    ensures
        translate_ook(ook_src) == translate_short_ook(short_src),
{
    lemma_word_pairs_match_symbol_pairs(words(ook_src), short_symbols(short_src), 0);
}

/// Symbol pairs that encode the opcodes of `ops` one pair per opcode decode
/// to the rest of `ops`, from any pair position on.
proof fn lemma_symbol_pairs_decode(cs: Seq<char>, ops: Seq<Opcode>, j: int)
    requires
        0 <= j <= ops.len(),
        cs.len() == 2 * ops.len(),
        forall|k: int|
            0 <= k < ops.len() ==> pair_opcode(#[trigger] cs[2 * k], cs[2 * k + 1]) == Some(
                ops[k],
            ),
    ensures
        symbol_pairs_from(cs, 2 * j) == ops.subrange(j, ops.len() as int),
    decreases ops.len() - j,
{
    if j == ops.len() {
        assert(symbol_pairs_from(cs, 2 * j) =~= ops.subrange(j, ops.len() as int));
    } else {
        lemma_symbol_pairs_decode(cs, ops, j + 1);
        assert(pair_opcode(cs[2 * j], cs[2 * j + 1]) == Some(ops[j]));
        assert(2 * (j + 1) == 2 * j + 2);
        assert(seq![ops[j]] + ops.subrange(j + 1, ops.len() as int) =~= ops.subrange(
            j,
            ops.len() as int,
        ));
    }
}

/// Law: translator equivalence, Brainfuck leg. A Short-Ook source whose
/// symbol sequence encodes, pair by pair, the opcodes of a program translates
/// to exactly that program — so a Short-Ook encoding of what the Brainfuck
/// translator produced yields the identical canonical program.
pub proof fn lemma_short_ook_encoding_decodes(short_src: Seq<char>, ops: Seq<Opcode>)
    requires
        short_symbols(short_src).len() == 2 * ops.len(),
        forall|k: int|
            0 <= k < ops.len() ==> pair_opcode(
                #[trigger] short_symbols(short_src)[2 * k],
                short_symbols(short_src)[2 * k + 1],
            ) == Some(ops[k]),
    ensures
        translate_short_ook(short_src) == ops,
{
    lemma_symbol_pairs_decode(short_symbols(short_src), ops, 0);
    assert(ops.subrange(0, ops.len() as int) =~= ops);
}

/// Text free of the three symbols filters to nothing.
proof fn lemma_short_symbols_foreign(s: Seq<char>)
    requires
        forall|k: int| 0 <= k < s.len() ==> !is_short_symbol(#[trigger] s[k]),
    ensures
        short_symbols(s) == Seq::<char>::empty(),
    decreases s.len(),
{
    if s.len() == 0 {
    } else {
        lemma_short_symbols_foreign(s.drop_last());
        assert(short_symbols(s) =~= Seq::<char>::empty());
    }
}

/// Law: foreign text. Short-Ook source that contains none of the three
/// symbols of its alphabet translates to the empty program.
pub proof fn lemma_short_ook_foreign_empty(s: Seq<char>)
    requires
        forall|k: int| 0 <= k < s.len() ==> !is_short_symbol(#[trigger] s[k]),
    ensures
        translate_short_ook(s).len() == 0,
{
    lemma_short_symbols_foreign(s);
}

} // verus!
