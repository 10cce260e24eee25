use vstd::prelude::*;

use crate::compiler::token_immediate;
use crate::error::EmulatorError;
use crate::token::Register;
use crate::token::Token;

verus! {

/// The characters that separate words of the source text: whitespace
/// between words and, conventionally, a comma between two operands
/// ("mov A,0001").
pub open spec fn is_separator(c: char) -> bool {
    c == ' ' || c == '\t' || c == '\r' || c == '\n' || c == ','
}

/// The views of a sequence of owned strings.
pub open spec fn views_of(v: Seq<String>) -> Seq<Seq<char>> {
    v.map_values(|s: String| s@)
}

/// Where the word starting at `i` ends: the next separator, or the end of
/// the line.
pub open spec fn word_end(s: Seq<char>, i: int) -> int
    decreases s.len() - i,
{
    if i < 0 || i >= s.len() {
        s.len() as int
    } else if is_separator(s[i]) {
        i
    } else {
        word_end(s, i + 1)
    }
}

/// The end of a word lies at or after its start and within the line.
pub proof fn lemma_word_end_bounds(s: Seq<char>, i: int)
    requires
        0 <= i <= s.len(),
    ensures
        i <= word_end(s, i) <= s.len(),
    decreases s.len() - i,
{
    if i < s.len() && !is_separator(s[i]) {
        lemma_word_end_bounds(s, i + 1);
    }
}

/// The words of one line from position `i` on: maximal runs of
/// non-separator characters, in order. Runs of separators produce no words.
pub open spec fn words_from(s: Seq<char>, i: int) -> Seq<Seq<char>>
    decreases s.len() - i,
    when i >= 0
    via words_from_decreases
{
    if i < 0 || i >= s.len() {
        Seq::empty()
    } else if is_separator(s[i]) {
        words_from(s, i + 1)
    } else {
        seq![s.subrange(i, word_end(s, i))] + words_from(s, word_end(s, i))
    }
}

#[via_fn]
proof fn words_from_decreases(s: Seq<char>, i: int) {
    if 0 <= i < s.len() && !is_separator(s[i]) {
        lemma_word_end_bounds(s, i + 1);
    }
}

/// The flat word sequence of a whole program text from line `i` on: every
/// line's words, in line order. Instructions are recognized over this flat
/// sequence, so a statement may span lines.
pub open spec fn tokenize_from(lines: Seq<Seq<char>>, i: int) -> Seq<Seq<char>>
    decreases lines.len() - i,
{
    if i < 0 || i >= lines.len() {
        Seq::empty()
    } else {
        words_from(lines[i], 0) + tokenize_from(lines, i + 1)
    }
}

/// The flat word sequence of a whole program text.
pub open spec fn tokenize(lines: Seq<Seq<char>>) -> Seq<Seq<char>> {
    tokenize_from(lines, 0)
}

/// Whether the character is a binary digit.
pub open spec fn is_bin_digit(c: char) -> bool {
    c == '0' || c == '1'
}

/// Whether every character of the word is a binary digit.
pub open spec fn all_bin_digits(s: Seq<char>) -> bool {
    forall|j: int| 0 <= j < s.len() ==> is_bin_digit(#[trigger] s[j])
}

/// The word read as a base-2 numeral, counting every character other than
/// '1' as zero; meaningful only where `all_bin_digits` holds.
pub open spec fn bin_val(s: Seq<char>) -> int
    decreases s.len(),
{
    if s.len() == 0 {
        0
    } else {
        2 * bin_val(s.drop_last()) + (if s.last() == '1' {
            1int
        } else {
            0int
        })
    }
}

/// What an immediate operand word denotes: its base-2 value, defined exactly
/// for a non-empty all-binary word whose value fits a byte. Masking to 4
/// bits happens later, at encoding, never here.
pub open spec fn bin_value(s: Seq<char>) -> Option<u8> {
    if s.len() > 0 && all_bin_digits(s) && bin_val(s) <= 255 {
        Some(bin_val(s) as u8)
    } else {
        None
    }
}

/// A binary numeral's value is never negative.
pub proof fn lemma_bin_val_nonneg(s: Seq<char>)
    ensures
        bin_val(s) >= 0,
    decreases s.len(),
{
    if s.len() > 0 {
        lemma_bin_val_nonneg(s.drop_last());
    }
}

/// A binary numeral is at least as large as any of its prefixes: appending
/// digits never shrinks the value.
pub proof fn lemma_bin_val_prefix(s: Seq<char>, j: int)
    requires
        0 <= j <= s.len(),
    ensures
        bin_val(s.take(j)) <= bin_val(s),
    decreases s.len() - j,
{
    if j < s.len() {
        assert(s.take(j + 1).drop_last() =~= s.take(j));
        assert(s.take(j + 1).last() == s[j]);
        lemma_bin_val_nonneg(s.take(j));
        lemma_bin_val_prefix(s, j + 1);
    } else {
        assert(s.take(j) =~= s);
    }
}

/// What a register operand word denotes.
pub open spec fn register_of(w: Seq<char>) -> Option<Register> {
    if w == "A"@ {
        Some(Register::A)
    } else if w == "B"@ {
        Some(Register::B)
    } else {
        None
    }
}

/// Prepends a token to a successfully parsed tail; an error in the tail
/// stays an error.
pub open spec fn with_token(t: Token, rest: Option<Seq<Token>>) -> Option<Seq<Token>> {
    match rest {
        Some(tokens) => Some(seq![t] + tokens),
        None => None,
    }
}

/// The tokens recognized from the flat word sequence from position `i` on.
/// A recognized mnemonic consumes its one or two operand words; a word that
/// is no mnemonic is skipped without a token, so stray words are permitted.
/// `None` exactly when an operand word is missing at the end of the input,
/// a register operand is neither "A" nor "B", or an immediate operand is
/// not a byte-sized binary numeral.
pub open spec fn parse_from(words: Seq<Seq<char>>, i: int) -> Option<Seq<Token>>
    decreases words.len() - i,
{
    if i < 0 || i >= words.len() {
        Some(Seq::empty())
    } else {
        let w = words[i];
        if w == "mov"@ {
            if i + 3 > words.len() {
                None
            } else {
                let lhs = words[i + 1];
                let rhs = words[i + 2];
                if lhs == "A"@ && rhs == "B"@ {
                    with_token(Token::MovAB, parse_from(words, i + 3))
                } else if lhs == "B"@ && rhs == "A"@ {
                    with_token(Token::MovBA, parse_from(words, i + 3))
                } else if register_of(lhs) is Some && bin_value(rhs) is Some {
                    with_token(
                        Token::Mov(register_of(lhs)->0, bin_value(rhs)->0),
                        parse_from(words, i + 3),
                    )
                } else {
                    None
                }
            }
        } else if w == "add"@ {
            if i + 3 > words.len() {
                None
            } else {
                let lhs = words[i + 1];
                let rhs = words[i + 2];
                if register_of(lhs) is Some && bin_value(rhs) is Some {
                    with_token(
                        Token::Add(register_of(lhs)->0, bin_value(rhs)->0),
                        parse_from(words, i + 3),
                    )
                } else {
                    None
                }
            }
        } else if w == "jmp"@ {
            if i + 2 > words.len() {
                None
            } else if bin_value(words[i + 1]) is Some {
                with_token(Token::Jmp(bin_value(words[i + 1])->0), parse_from(words, i + 2))
            } else {
                None
            }
        } else if w == "jnc"@ {
            if i + 2 > words.len() {
                None
            } else if bin_value(words[i + 1]) is Some {
                with_token(Token::Jnc(bin_value(words[i + 1])->0), parse_from(words, i + 2))
            } else {
                None
            }
        } else if w == "in"@ {
            if i + 2 > words.len() {
                None
            } else if register_of(words[i + 1]) is Some {
                with_token(Token::In(register_of(words[i + 1])->0), parse_from(words, i + 2))
            } else {
                None
            }
        } else if w == "out"@ {
            if i + 2 > words.len() {
                None
            } else if words[i + 1] == "B"@ {
                with_token(Token::OutB, parse_from(words, i + 2))
            } else if bin_value(words[i + 1]) is Some {
                with_token(Token::OutIm(bin_value(words[i + 1])->0), parse_from(words, i + 2))
            } else {
                None
            }
        } else {
            parse_from(words, i + 1)
        }
    }
}

/// The character of one bit.
pub open spec fn bit_char(b: u8) -> char {
    if b == 1 {
        '1'
    } else {
        '0'
    }
}

/// The canonical four-digit binary numeral of a 4-bit immediate.
pub open spec fn bin4(immediate: u8) -> Seq<char> {
    seq![
        bit_char((immediate >> 3) & 1),
        bit_char((immediate >> 2) & 1),
        bit_char((immediate >> 1) & 1),
        bit_char(immediate & 1),
    ]
}

/// The canonical operand word of a register.
pub open spec fn register_word(r: Register) -> Seq<char> {
    match r {
        Register::A => "A"@,
        Register::B => "B"@,
    }
}

/// The canonical text form of a token, as one word sequence: the mnemonic,
/// then its operand words, immediates written as four binary digits.
pub open spec fn canonical_words(t: Token) -> Seq<Seq<char>> {
    match t {
        Token::Mov(r, immediate) => seq!["mov"@, register_word(r), bin4(immediate)],
        Token::MovAB => seq!["mov"@, "A"@, "B"@],
        Token::MovBA => seq!["mov"@, "B"@, "A"@],
        Token::Add(r, immediate) => seq!["add"@, register_word(r), bin4(immediate)],
        Token::Jmp(immediate) => seq!["jmp"@, bin4(immediate)],
        Token::Jnc(immediate) => seq!["jnc"@, bin4(immediate)],
        Token::In(r) => seq!["in"@, register_word(r)],
        Token::OutB => seq!["out"@, "B"@],
        Token::OutIm(immediate) => seq!["out"@, bin4(immediate)],
    }
}

/// The canonical numeral of an in-range immediate denotes that immediate.
pub proof fn lemma_bin4_value(immediate: u8)
    requires
        immediate <= 15,
    ensures
        bin_value(bin4(immediate)) == Some(immediate),
{
    let s = bin4(immediate);
    let b3 = (immediate >> 3) & 1;
    let b2 = (immediate >> 2) & 1;
    let b1 = (immediate >> 1) & 1;
    let b0 = immediate & 1;
    assert(((immediate >> 3) & 1) <= 1 && ((immediate >> 2) & 1) <= 1 && ((immediate >> 1) & 1)
        <= 1 && (immediate & 1) <= 1) by (bit_vector);
    assert(all_bin_digits(s));

    assert(bin_val(Seq::<char>::empty()) == 0);
    let t3 = seq![bit_char(b3)];
    let t2 = seq![bit_char(b3), bit_char(b2)];
    let t1 = seq![bit_char(b3), bit_char(b2), bit_char(b1)];
    assert(t3.drop_last() =~= Seq::<char>::empty());
    assert(bin_val(t3) == b3);
    assert(t2.drop_last() =~= t3);
    assert(bin_val(t2) == 2 * b3 + b2);
    assert(t1.drop_last() =~= t2);
    assert(bin_val(t1) == 4 * b3 + 2 * b2 + b1);
    assert(s.drop_last() =~= t1);
    assert(bin_val(s) == 8 * b3 + 4 * b2 + 2 * b1 + b0);
    assert(8 * b3 + 4 * b2 + 2 * b1 + b0 == immediate) by (bit_vector)
        requires
            immediate <= 15,
            b3 == (immediate >> 3) & 1,
            b2 == (immediate >> 2) & 1,
            b1 == (immediate >> 1) & 1,
            b0 == immediate & 1,
    ;
}

/// Round trip of the whole mnemonic table at the text level: the canonical
/// text form of a token, with an in-range immediate, parses back to exactly
/// that token and nothing else.
pub proof fn lemma_canonical_text_parses(t: Token)
    requires
        token_immediate(t) <= 15,
    ensures
        parse_from(canonical_words(t), 0) == Some(seq![t]),
{
    reveal_strlit("mov");
    reveal_strlit("add");
    reveal_strlit("jmp");
    reveal_strlit("jnc");
    reveal_strlit("in");
    reveal_strlit("out");
    reveal_strlit("A");
    reveal_strlit("B");
    assert("mov"@.len() == 3 && "add"@.len() == 3 && "jmp"@.len() == 3 && "jnc"@.len() == 3
        && "in"@.len() == 2 && "out"@.len() == 3 && "A"@.len() == 1 && "B"@.len() == 1);
    assert("mov"@[0] == 'm' && "add"@[0] == 'a' && "jmp"@[0] == 'j' && "jnc"@[0] == 'j'
        && "jmp"@[1] == 'm' && "jnc"@[1] == 'n' && "out"@[0] == 'o');
    assert("add"@ != "mov"@);
    assert("jmp"@ != "mov"@ && "jmp"@ != "add"@);
    assert("jnc"@ != "mov"@ && "jnc"@ != "add"@ && "jnc"@ != "jmp"@);
    assert("in"@ != "mov"@ && "in"@ != "add"@ && "in"@ != "jmp"@ && "in"@ != "jnc"@);
    assert("out"@ != "mov"@ && "out"@ != "add"@ && "out"@ != "jmp"@ && "out"@ != "jnc"@ && "out"@
        != "in"@);
    let words = canonical_words(t);
    assert(seq![t] + Seq::<Token>::empty() =~= seq![t]);
    match t {
        Token::Mov(r, immediate) => {
            lemma_bin4_value(immediate);
            assert(words.len() == 3);
            assert(words[0] == "mov"@);
            assert(words[2] == bin4(immediate));
            assert(words[2].len() == 4);
            assert(words[2] != "A"@ && words[2] != "B"@);
            match r {
                Register::A => {
                    assert(words[1] == "A"@);
                    assert(register_of(words[1]) == Some(Register::A));
                },
                Register::B => {
                    assert(words[1] == "B"@);
                    assert(register_of(words[1]) == Some(Register::B));
                },
            }
            assert(bin_value(words[2]) == Some(immediate));
            assert(parse_from(words, 3) == Some(Seq::<Token>::empty()));
            assert(parse_from(words, 0) == with_token(t, parse_from(words, 3)));
        },
        Token::MovAB => {
            assert(words.len() == 3);
            assert(words[0] == "mov"@ && words[1] == "A"@ && words[2] == "B"@);
            assert(parse_from(words, 3) == Some(Seq::<Token>::empty()));
            assert(parse_from(words, 0) == with_token(t, parse_from(words, 3)));
        },
        Token::MovBA => {
            assert(words.len() == 3);
            assert(words[0] == "mov"@ && words[1] == "B"@ && words[2] == "A"@);
            assert(parse_from(words, 3) == Some(Seq::<Token>::empty()));
            assert(parse_from(words, 0) == with_token(t, parse_from(words, 3)));
        },
        Token::Add(r, immediate) => {
            lemma_bin4_value(immediate);
            assert(words.len() == 3);
            assert(words[0] == "add"@);
            assert(words[2] == bin4(immediate));
            match r {
                Register::A => {
                    assert(words[1] == "A"@);
                    assert(register_of(words[1]) == Some(Register::A));
                },
                Register::B => {
                    assert(words[1] == "B"@);
                    assert(register_of(words[1]) == Some(Register::B));
                },
            }
            assert(bin_value(words[2]) == Some(immediate));
            assert(parse_from(words, 3) == Some(Seq::<Token>::empty()));
            assert(parse_from(words, 0) == with_token(t, parse_from(words, 3)));
        },
        Token::Jmp(immediate) => {
            lemma_bin4_value(immediate);
            assert(words.len() == 2);
            assert(words[0] == "jmp"@);
            assert(words[1] == bin4(immediate));
            assert(bin_value(words[1]) == Some(immediate));
            assert(parse_from(words, 2) == Some(Seq::<Token>::empty()));
            assert(parse_from(words, 0) == with_token(t, parse_from(words, 2)));
        },
        Token::Jnc(immediate) => {
            lemma_bin4_value(immediate);
            assert(words.len() == 2);
            assert(words[0] == "jnc"@);
            assert(words[1] == bin4(immediate));
            assert(bin_value(words[1]) == Some(immediate));
            assert(parse_from(words, 2) == Some(Seq::<Token>::empty()));
            assert(parse_from(words, 0) == with_token(t, parse_from(words, 2)));
        },
        Token::In(r) => {
            assert(words.len() == 2);
            assert(words[0] == "in"@);
            match r {
                Register::A => {
                    assert(words[1] == "A"@);
                    assert(register_of(words[1]) == Some(Register::A));
                },
                Register::B => {
                    assert(words[1] == "B"@);
                    assert(register_of(words[1]) == Some(Register::B));
                },
            }
            assert(parse_from(words, 2) == Some(Seq::<Token>::empty()));
            assert(parse_from(words, 0) == with_token(t, parse_from(words, 2)));
        },
        Token::OutB => {
            assert(words.len() == 2);
            assert(words[0] == "out"@ && words[1] == "B"@);
            assert(parse_from(words, 2) == Some(Seq::<Token>::empty()));
            assert(parse_from(words, 0) == with_token(t, parse_from(words, 2)));
        },
        Token::OutIm(immediate) => {
            lemma_bin4_value(immediate);
            assert(words.len() == 2);
            assert(words[0] == "out"@);
            assert(words[1] == bin4(immediate));
            assert(words[1].len() == 4);
            assert(words[1] != "B"@);
            assert(bin_value(words[1]) == Some(immediate));
            assert(parse_from(words, 2) == Some(Seq::<Token>::empty()));
            assert(parse_from(words, 0) == with_token(t, parse_from(words, 2)));
        },
    }
}

/// The message of the error the scanner reports from position `i` on,
/// following `parse_from` branch for branch: meaningful exactly where
/// `parse_from` fails. A malformed operand's message names the offending
/// text.
pub open spec fn parse_error_of(words: Seq<Seq<char>>, i: int) -> Seq<char>
    decreases words.len() - i,
{
    if i < 0 || i >= words.len() {
        Seq::empty()
    } else {
        let w = words[i];
        if w == "mov"@ {
            if i + 2 > words.len() {
                "Failed to parse mov left hand"@
            } else if i + 3 > words.len() {
                "Failed to parse mov right hand"@
            } else {
                let lhs = words[i + 1];
                let rhs = words[i + 2];
                if lhs == "A"@ && rhs == "B"@ {
                    parse_error_of(words, i + 3)
                } else if lhs == "B"@ && rhs == "A"@ {
                    parse_error_of(words, i + 3)
                } else if register_of(lhs) is None {
                    "Failed to parse register: "@ + lhs
                } else if bin_value(rhs) is None {
                    "Failed to parse string: "@ + rhs
                } else {
                    parse_error_of(words, i + 3)
                }
            }
        } else if w == "add"@ {
            if i + 2 > words.len() {
                "Failed to parse add left hand"@
            } else if i + 3 > words.len() {
                "Failed to parse add right hand"@
            } else {
                let lhs = words[i + 1];
                let rhs = words[i + 2];
                if register_of(lhs) is None {
                    "Failed to parse register: "@ + lhs
                } else if bin_value(rhs) is None {
                    "Failed to parse string: "@ + rhs
                } else {
                    parse_error_of(words, i + 3)
                }
            }
        } else if w == "jmp"@ {
            if i + 2 > words.len() {
                "Failed to parse 'jmp' immediate value"@
            } else if bin_value(words[i + 1]) is None {
                "Failed to parse string: "@ + words[i + 1]
            } else {
                parse_error_of(words, i + 2)
            }
        } else if w == "jnc"@ {
            if i + 2 > words.len() {
                "Failed to parse 'jnc' immediate value"@
            } else if bin_value(words[i + 1]) is None {
                "Failed to parse string: "@ + words[i + 1]
            } else {
                parse_error_of(words, i + 2)
            }
        } else if w == "in"@ {
            if i + 2 > words.len() {
                "Failed to parse 'in' register"@
            } else if register_of(words[i + 1]) is None {
                "Failed to parse register: "@ + words[i + 1]
            } else {
                parse_error_of(words, i + 2)
            }
        } else if w == "out"@ {
            if i + 2 > words.len() {
                "Failed to parse 'out' immediate value"@
            } else if words[i + 1] == "B"@ {
                parse_error_of(words, i + 2)
            } else if bin_value(words[i + 1]) is None {
                "Failed to parse string: "@ + words[i + 1]
            } else {
                parse_error_of(words, i + 2)
            }
        } else {
            parse_error_of(words, i + 1)
        }
    }
}

/// Whether two strings hold the same characters.
fn str_eq(a: &str, b: &str) -> (res: bool)
    ensures
        res == (a@ == b@),
{
    let len_a = a.unicode_len();
    let len_b = b.unicode_len();
    if len_a != len_b {
        return false;
    }
    let mut k: usize = 0;
    while k < len_a
        invariant
            k <= len_a,
            len_a == a@.len(),
            len_a == b@.len(),
            forall|j: int| 0 <= j < k ==> a@[j] == b@[j],
        decreases len_a - k,
    {
        if a.get_char(k) != b.get_char(k) {
            return false;
        }
        k = k + 1;
    }
    proof {
        assert(a@ =~= b@);
    }
    true
}

/// Scans from `start` to the end of the word there.
fn find_word_end(s: &str, start: usize) -> (res: usize)
    requires
        start <= s@.len(),
    ensures
        res == word_end(s@, start as int),
        start <= res <= s@.len(),
{
    let len = s.unicode_len();
    let mut j: usize = start;
    while j < len
        invariant
            start <= j <= len,
            len == s@.len(),
            word_end(s@, start as int) == word_end(s@, j as int),
        decreases len - j,
    {
        let c = s.get_char(j);
        if c == ' ' || c == '\t' || c == '\r' || c == '\n' || c == ',' {
            return j;
        }
        j = j + 1;
    }
    j
}

/// Reads a register operand word.
fn register_from_word(w: &str) -> (res: Option<Register>)
    ensures
        res == register_of(w@),
{
    if str_eq(w, "A") {
        Some(Register::A)
    } else if str_eq(w, "B") {
        Some(Register::B)
    } else {
        None
    }
}

/// The error for an immediate operand that is no binary numeral, naming the
/// offending text.
fn parse_failure(text: &str) -> (res: EmulatorError)
    ensures
        res@ == "Failed to parse string: "@ + text@,
{
    let message = String::from_str("Failed to parse string: ").concat(text);
    EmulatorError::new(message.as_str())
}

/// The error for a register operand that names no register, naming the
/// offending text.
fn register_failure(text: &str) -> (res: EmulatorError)
    ensures
        res@ == "Failed to parse register: "@ + text@,
{
    let message = String::from_str("Failed to parse register: ").concat(text);
    EmulatorError::new(message.as_str())
}

/// Mapping string views distributes over appending one string.
proof fn lemma_views_push(v: Seq<String>, x: String)
    ensures
        views_of(v.push(x)) =~= views_of(v).push(x@),
{
}

/// One scanner step that recognized token `t` at position `p` and moved on
/// to position `q` keeps the done-plus-remainder bookkeeping intact.
proof fn lemma_parse_step(
    words: Seq<Seq<char>>,
    start: int,
    p: int,
    q: int,
    done: Seq<Token>,
    t: Token,
)
    requires
        parse_from(words, p) == with_token(t, parse_from(words, q)),
        parse_from(words, p) matches Some(r) ==> parse_from(words, start) == Some(done + r),
        parse_from(words, p) is None ==> parse_from(words, start) is None,
    ensures
        parse_from(words, q) matches Some(r) ==> parse_from(words, start) == Some(
            done.push(t) + r,
        ),
        parse_from(words, q) is None ==> parse_from(words, start) is None,
{
    match parse_from(words, q) {
        Some(rest) => {
            assert(parse_from(words, p) == Some(seq![t] + rest));
            assert(done + (seq![t] + rest) =~= done.push(t) + rest);
        },
        None => {},
    }
}

/// The assembler's front end: flattens the source lines into one word
/// sequence, then recognizes instruction tokens over it left to right.
pub struct Parser {
    position: usize,
    source: Vec<String>,
}

impl View for Parser {
    type V = Seq<Seq<char>>;

    closed spec fn view(&self) -> Seq<Seq<char>> {
        views_of(self.source@)
    }
}

impl Parser {
    /// The next word the scanner will look at.
    pub closed spec fn spec_position(&self) -> int {
        self.position as int
    }

    /// Splits every line on whitespace and commas and flattens the words,
    /// in order, into the scanner's source sequence.
    pub fn new(operations: Vec<String>) -> (res: Parser)
        ensures
            res@ == tokenize(views_of(operations@)),
            res.spec_position() == 0,
    {
        let mut source: Vec<String> = Vec::new();
        let ghost lines = views_of(operations@);

        let mut li: usize = 0;
        while li < operations.len()
            invariant
                li <= operations@.len(),
                lines == views_of(operations@),
                tokenize(lines) =~= views_of(source@) + tokenize_from(lines, li as int),
            decreases operations@.len() - li,
        {
            let line: &str = operations[li].as_str();
            let line_len = line.unicode_len();
            let ghost source_at_line_start = views_of(source@);
            proof {
                assert(line@ == lines[li as int]);
            }
            let mut j: usize = 0;
            while j < line_len
                invariant
                    j <= line_len,
                    line_len == line@.len(),
                    views_of(source@) + words_from(line@, j as int) =~= source_at_line_start
                        + words_from(line@, 0),
                decreases line_len - j,
            {
                let c = line.get_char(j);
                if c == ' ' || c == '\t' || c == '\r' || c == '\n' || c == ',' {
                    j = j + 1;
                } else {
                    let ghost source_before = source@;
                    let e = find_word_end(line, j);
                    let word = line.substring_char(j, e).to_owned();
                    proof {
                        lemma_views_push(source_before, word);
                    }
                    source.push(word);
                    proof {
                        assert(e > j);
                        assert(words_from(line@, j as int) =~= seq![
                            line@.subrange(j as int, e as int),
                        ] + words_from(line@, e as int));
                        assert(views_of(source@) + words_from(line@, e as int)
                            =~= source_at_line_start + words_from(line@, 0));
                    }
                    j = e;
                }
            }
            proof {
                assert(words_from(line@, j as int) =~= Seq::<Seq<char>>::empty());
                assert(views_of(source@) =~= source_at_line_start + words_from(line@, 0));
                assert(line@ == lines[li as int]);
            }
            li = li + 1;
        }

        Parser { position: 0, source }
    }

    /// Scans the flat word sequence from the current position on and builds
    /// one token per recognized mnemonic, exactly as `parse_from` lays it
    /// down: an unrecognized leading word is skipped, a missing or
    /// malformed operand is an error that aborts the whole parse.
    pub fn parse(&mut self) -> (res: Result<Vec<Token>, EmulatorError>)
        ensures
            final(self)@ == old(self)@,
            res is Ok <==> parse_from(old(self)@, old(self).spec_position()) is Some,
            res matches Ok(tokens) ==> parse_from(old(self)@, old(self).spec_position())
                == Some(tokens@),
            res matches Err(e) ==> e@ == parse_error_of(old(self)@, old(self).spec_position()),
            res is Ok ==> final(self).spec_position() == (if old(self).spec_position()
                >= old(self)@.len() {
                old(self).spec_position()
            } else {
                old(self)@.len() as int
            }),
    {
        let mut result: Vec<Token> = Vec::new();
        let ghost words = self@;
        let ghost start = self.spec_position();

        while self.position < self.source.len()
            invariant
                self.source@ == old(self).source@,
                words == views_of(self.source@),
                words.len() == self.source@.len(),
                start == old(self).spec_position(),
                start <= self.position,
                self.position <= words.len() || self.position == start,
                parse_from(words, self.position as int) matches Some(r) ==> parse_from(
                    words,
                    start,
                ) == Some(result@ + r),
                parse_from(words, self.position as int) is None ==> parse_from(words, start)
                    is None,
                parse_from(words, self.position as int) is None ==> parse_error_of(words, start)
                    == parse_error_of(words, self.position as int),
            decreases self.source@.len() - self.position,
        {
            let ghost p = self.position as int;
            let ghost done = result@;
            let w = self.source[self.position].clone();
            proof {
                assert(words[p] == w@);
            }

            if str_eq(w.as_str(), "mov") {
                self.position = self.position + 1;
                if self.position >= self.source.len() {
                    proof {
                        assert(parse_from(words, p) is None);
                        assert(parse_error_of(words, p) == "Failed to parse mov left hand"@);
                    }
                    return Err(EmulatorError::new("Failed to parse mov left hand"));
                }
                let lhs = self.source[self.position].clone();
                proof {
                    assert(words[p + 1] == lhs@);
                }
                self.position = self.position + 1;
                if self.position >= self.source.len() {
                    proof {
                        assert(parse_from(words, p) is None);
                        assert(parse_error_of(words, p) == "Failed to parse mov right hand"@);
                    }
                    return Err(EmulatorError::new("Failed to parse mov right hand"));
                }
                let rhs = self.source[self.position].clone();
                proof {
                    assert(words[p + 2] == rhs@);
                }

                let token: Token = if str_eq(lhs.as_str(), "A") && str_eq(rhs.as_str(), "B") {
                    Token::MovAB
                } else if str_eq(lhs.as_str(), "B") && str_eq(rhs.as_str(), "A") {
                    Token::MovBA
                } else {
                    let reg = match register_from_word(lhs.as_str()) {
                        Some(r) => r,
                        None => {
                            proof {
                                assert(parse_from(words, p) is None);
                                assert(parse_error_of(words, p) == "Failed to parse register: "@ + words[p + 1]);
                            }
                            return Err(register_failure(lhs.as_str()));
                        },
                    };
                    let immediate = match self.from_binary_to_decimal(rhs.as_str()) {
                        Ok(v) => v,
                        Err(error) => {
                            proof {
                                assert(parse_from(words, p) is None);
                                assert(parse_error_of(words, p) == "Failed to parse string: "@ + words[p + 2]);
                            }
                            return Err(error);
                        },
                    };
                    Token::Mov(reg, immediate)
                };
                proof {
                    lemma_parse_step(words, start, p, p + 3, done, token);
                    assert(parse_from(words, p) is None ==> parse_error_of(words, p)
                        == parse_error_of(words, p + 3));
                }
                result.push(token);
            } else if str_eq(w.as_str(), "add") {
                self.position = self.position + 1;
                if self.position >= self.source.len() {
                    proof {
                        assert(parse_from(words, p) is None);
                        assert(parse_error_of(words, p) == "Failed to parse add left hand"@);
                    }
                    return Err(EmulatorError::new("Failed to parse add left hand"));
                }
                let lhs = self.source[self.position].clone();
                proof {
                    assert(words[p + 1] == lhs@);
                }
                self.position = self.position + 1;
                if self.position >= self.source.len() {
                    proof {
                        assert(parse_from(words, p) is None);
                        assert(parse_error_of(words, p) == "Failed to parse add right hand"@);
                    }
                    return Err(EmulatorError::new("Failed to parse add right hand"));
                }
                let rhs = self.source[self.position].clone();
                proof {
                    assert(words[p + 2] == rhs@);
                }

                let reg = match register_from_word(lhs.as_str()) {
                    Some(r) => r,
                    None => {
                        proof {
                            assert(parse_from(words, p) is None);
                            assert(parse_error_of(words, p) == "Failed to parse register: "@ + words[p + 1]);
                        }
                        return Err(register_failure(lhs.as_str()));
                    },
                };
                let immediate = match self.from_binary_to_decimal(rhs.as_str()) {
                    Ok(v) => v,
                    Err(error) => {
                        proof {
                            assert(parse_from(words, p) is None);
                            assert(parse_error_of(words, p) == "Failed to parse string: "@ + words[p + 2]);
                        }
                        return Err(error);
                    },
                };
                let token = Token::Add(reg, immediate);
                proof {
                    lemma_parse_step(words, start, p, p + 3, done, token);
                    assert(parse_from(words, p) is None ==> parse_error_of(words, p)
                        == parse_error_of(words, p + 3));
                }
                result.push(token);
            } else if str_eq(w.as_str(), "jmp") {
                self.position = self.position + 1;
                if self.position >= self.source.len() {
                    proof {
                        assert(parse_from(words, p) is None);
                        assert(parse_error_of(words, p) == "Failed to parse 'jmp' immediate value"@);
                    }
                    return Err(EmulatorError::new("Failed to parse 'jmp' immediate value"));
                }
                let operand = self.source[self.position].clone();
                proof {
                    assert(words[p + 1] == operand@);
                }
                let immediate = match self.from_binary_to_decimal(operand.as_str()) {
                    Ok(v) => v,
                    Err(error) => {
                        proof {
                            assert(parse_from(words, p) is None);
                            assert(parse_error_of(words, p) == "Failed to parse string: "@ + words[p + 1]);
                        }
                        return Err(error);
                    },
                };
                let token = Token::Jmp(immediate);
                proof {
                    lemma_parse_step(words, start, p, p + 2, done, token);
                    assert(parse_from(words, p) is None ==> parse_error_of(words, p)
                        == parse_error_of(words, p + 2));
                }
                result.push(token);
            } else if str_eq(w.as_str(), "jnc") {
                self.position = self.position + 1;
                if self.position >= self.source.len() {
                    proof {
                        assert(parse_from(words, p) is None);
                        assert(parse_error_of(words, p) == "Failed to parse 'jnc' immediate value"@);
                    }
                    return Err(EmulatorError::new("Failed to parse 'jnc' immediate value"));
                }
                let operand = self.source[self.position].clone();
                proof {
                    assert(words[p + 1] == operand@);
                }
                let immediate = match self.from_binary_to_decimal(operand.as_str()) {
                    Ok(v) => v,
                    Err(error) => {
                        proof {
                            assert(parse_from(words, p) is None);
                            assert(parse_error_of(words, p) == "Failed to parse string: "@ + words[p + 1]);
                        }
                        return Err(error);
                    },
                };
                let token = Token::Jnc(immediate);
                proof {
                    lemma_parse_step(words, start, p, p + 2, done, token);
                    assert(parse_from(words, p) is None ==> parse_error_of(words, p)
                        == parse_error_of(words, p + 2));
                }
                result.push(token);
            } else if str_eq(w.as_str(), "in") {
                self.position = self.position + 1;
                if self.position >= self.source.len() {
                    proof {
                        assert(parse_from(words, p) is None);
                        assert(parse_error_of(words, p) == "Failed to parse 'in' register"@);
                    }
                    return Err(EmulatorError::new("Failed to parse 'in' register"));
                }
                let operand = self.source[self.position].clone();
                proof {
                    assert(words[p + 1] == operand@);
                }
                let reg = match register_from_word(operand.as_str()) {
                    Some(r) => r,
                    None => {
                        proof {
                            assert(parse_from(words, p) is None);
                            assert(parse_error_of(words, p) == "Failed to parse register: "@ + words[p + 1]);
                        }
                        return Err(register_failure(operand.as_str()));
                    },
                };
                let token = Token::In(reg);
                proof {
                    lemma_parse_step(words, start, p, p + 2, done, token);
                    assert(parse_from(words, p) is None ==> parse_error_of(words, p)
                        == parse_error_of(words, p + 2));
                }
                result.push(token);
            } else if str_eq(w.as_str(), "out") {
                self.position = self.position + 1;
                if self.position >= self.source.len() {
                    proof {
                        assert(parse_from(words, p) is None);
                        assert(parse_error_of(words, p) == "Failed to parse 'out' immediate value"@);
                    }
                    return Err(EmulatorError::new("Failed to parse 'out' immediate value"));
                }
                let operand = self.source[self.position].clone();
                proof {
                    assert(words[p + 1] == operand@);
                }
                let token: Token = if str_eq(operand.as_str(), "B") {
                    Token::OutB
                } else {
                    match self.from_binary_to_decimal(operand.as_str()) {
                        Ok(v) => Token::OutIm(v),
                        Err(error) => {
                            proof {
                                assert(parse_from(words, p) is None);
                                assert(parse_error_of(words, p) == "Failed to parse string: "@ + words[p + 1]);
                            }
                            return Err(error);
                        },
                    }
                };
                proof {
                    lemma_parse_step(words, start, p, p + 2, done, token);
                    assert(parse_from(words, p) is None ==> parse_error_of(words, p)
                        == parse_error_of(words, p + 2));
                }
                result.push(token);
            }

            self.position = self.position + 1;
        }

        proof {
            assert(parse_from(words, self.position as int) == Some(Seq::<Token>::empty()));
            assert(result@ + Seq::<Token>::empty() =~= result@);
        }
        Ok(result)
    }

    /// Reads an immediate operand word as a base-2 numeral. Fails, naming
    /// the offending text, exactly when the word is empty, holds a
    /// character other than '0' or '1', or denotes a value above 255.
    fn from_binary_to_decimal(&self, text: &str) -> (res: Result<u8, EmulatorError>)
        ensures
            res is Ok <==> bin_value(text@) is Some,
            res matches Ok(v) ==> bin_value(text@) == Some(v),
            res matches Err(e) ==> e@ == "Failed to parse string: "@ + text@,
    {
        let len = text.unicode_len();
        if len == 0 {
            return Err(parse_failure(text));
        }

        let mut value: u16 = 0;
        let mut k: usize = 0;
        while k < len
            invariant
                k <= len,
                len == text@.len(),
                value <= 255,
                value == bin_val(text@.take(k as int)),
                all_bin_digits(text@.take(k as int)),
            decreases len - k,
        {
            let c = text.get_char(k);
            let d: u16 = if c == '0' {
                0
            } else if c == '1' {
                1
            } else {
                proof {
                    assert(!is_bin_digit(text@[k as int]));
                }
                return Err(parse_failure(text));
            };
            proof {
                assert(text@.take(k as int + 1).drop_last() =~= text@.take(k as int));
                assert(text@.take(k as int + 1).last() == text@[k as int]);
            }
            let next: u16 = value * 2 + d;
            if next > 255 {
                proof {
                    lemma_bin_val_prefix(text@, k as int + 1);
                }
                return Err(parse_failure(text));
            }
            value = next;
            k = k + 1;
        }
        proof {
            assert(text@.take(len as int) =~= text@);
        }
        Ok(value as u8)
    }
}

} // verus!
