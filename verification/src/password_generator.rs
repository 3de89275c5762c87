//! Random password generation from a configurable character set.
//!
//! The password is drawn from the union of the enabled character classes
//! (falling back to lowercase when none is enabled), optionally excluding
//! easily-confused characters; the result always has the requested length,
//! holds only characters of the chosen set, and, whenever the length allows
//! it, contains at least one character of every enabled class.

use vstd::prelude::*;

use vstd::pervasive::VecAdditionalExecFns;
use vstd::string::StrSliceExecFns;

verus! {

/// Which characters may appear, and how many.
#[derive(Debug, Clone)]
pub struct PasswordConfig {
    pub length: usize,
    pub uppercase: bool,
    pub lowercase: bool,
    pub digits: bool,
    pub symbols: bool,
    pub exclude_ambiguous: bool,
}

impl Default for PasswordConfig {
    /// Twenty characters from every class, ambiguous ones included.
    fn default() -> (r: Self)
        ensures
            r.length == 20,
            r.uppercase && r.lowercase && r.digits && r.symbols,
            !r.exclude_ambiguous,
    {
        PasswordConfig {
            length: 20,
            uppercase: true,
            lowercase: true,
            digits: true,
            symbols: true,
            exclude_ambiguous: false,
        }
    }
}

pub open spec fn is_upper_char(c: char) -> bool {
    'A' <= c && c <= 'Z'
}

pub open spec fn is_lower_char(c: char) -> bool {
    'a' <= c && c <= 'z'
}

pub open spec fn is_digit_char(c: char) -> bool {
    '0' <= c && c <= '9'
}

/// The punctuation characters offered by the symbols class.
pub open spec fn is_symbol_char(c: char) -> bool {
    ||| c == '!'
    ||| c == '@'
    ||| c == '#'
    ||| c == '$'
    ||| c == '%'
    ||| c == '^'
    ||| c == '&'
    ||| c == '*'
    ||| c == '('
    ||| c == ')'
    ||| c == '-'
    ||| c == '_'
    ||| c == '='
    ||| c == '+'
    ||| c == '['
    ||| c == ']'
    ||| c == '{'
    ||| c == '}'
    ||| c == '|'
    ||| c == ';'
    ||| c == ':'
    ||| c == ','
    ||| c == '.'
    ||| c == '<'
    ||| c == '>'
    ||| c == '?'
}

/// Characters that are easily confused with one another.
pub open spec fn is_ambiguous_char(c: char) -> bool {
    c == '0' || c == 'O' || c == '1' || c == 'l' || c == 'I'
}

/// May this character appear in a password generated under this
/// configuration?
pub open spec fn char_allowed(cfg: PasswordConfig, c: char) -> bool {
    let any = cfg.uppercase || cfg.lowercase || cfg.digits || cfg.symbols;
    let in_class = if any {
        ||| (cfg.uppercase && is_upper_char(c))
        ||| (cfg.lowercase && is_lower_char(c))
        ||| (cfg.digits && is_digit_char(c))
        ||| (cfg.symbols && is_symbol_char(c))
    } else {
        is_lower_char(c)
    };
    in_class && (cfg.exclude_ambiguous ==> !is_ambiguous_char(c))
}

/// Every enabled class is represented.
pub open spec fn meets_requirements_spec(cfg: PasswordConfig, s: Seq<char>) -> bool {
    &&& cfg.uppercase ==> exists|k: int| 0 <= k < s.len() && is_upper_char(#[trigger] s[k])
    &&& cfg.lowercase ==> exists|k: int| 0 <= k < s.len() && is_lower_char(#[trigger] s[k])
    &&& cfg.digits ==> exists|k: int| 0 <= k < s.len() && is_digit_char(#[trigger] s[k])
    &&& cfg.symbols ==> exists|k: int| 0 <= k < s.len() && is_symbol_char(#[trigger] s[k])
}

/// How many classes the configuration demands.
pub open spec fn enabled_classes(cfg: PasswordConfig) -> int {
    (if cfg.uppercase {
        1int
    } else {
        0int
    }) + (if cfg.lowercase {
        1int
    } else {
        0int
    }) + (if cfg.digits {
        1int
    } else {
        0int
    }) + (if cfg.symbols {
        1int
    } else {
        0int
    })
}

/// Relies on String::push: the character is appended to the string.
pub assume_specification[ String::push ](s: &mut String, ch: char)
    ensures
        final(s)@ == old(s)@.push(ch),
;

/// Relies on rand::random_range: a random index strictly below the bound,
/// from the thread-local generator. Nothing more can be promised of a random
/// value.
#[verifier::external_body]
fn random_index(bound: usize) -> (r: usize)
    requires
        bound > 0,
    ensures
        r < bound,
{
    rand::random_range(0..bound)
}

/// Is this character a symbol of the symbols class?
fn is_symbol_exec(c: char) -> (r: bool)
    ensures
        r == is_symbol_char(c),
{
    match c {
        '!' | '@' | '#' | '$' | '%' | '^' | '&' | '*' | '(' | ')' | '-' | '_' | '=' | '+' | '['
            | ']' | '{' | '}' | '|' | ';' | ':' | ',' | '.' | '<' | '>' | '?' => true,
        _ => false,
    }
}

/// Is this character ambiguous?
fn is_ambiguous_exec(c: char) -> (r: bool)
    ensures
        r == is_ambiguous_char(c),
{
    match c {
        '0' | 'O' | '1' | 'l' | 'I' => true,
        _ => false,
    }
}

/// Push the characters of an ASCII range, skipping ambiguous ones when asked.
/// Every character of the range that is not skipped ends up in the set.
fn push_char_range(cs: &mut Vec<char>, lo: u8, hi: u8, exclude_ambiguous: bool)
    requires
        lo <= hi,
        hi <= 0x7e,
    ensures
        final(cs)@.len() >= old(cs)@.len(),
        forall|k: int|
            old(cs)@.len() <= k < final(cs)@.len() ==> lo as char <= #[trigger] final(cs)@[k]
                <= hi as char && (exclude_ambiguous ==> !is_ambiguous_char(final(cs)@[k])),
        forall|k: int| 0 <= k < old(cs)@.len() ==> #[trigger] final(cs)@[k] == old(cs)@[k],
        forall|b: u8|
            lo <= b <= hi && !(exclude_ambiguous && is_ambiguous_char(b as char))
                ==> #[trigger] final(cs)@.contains(b as char),
{
    let mut b: u8 = lo;
    while b <= hi
        invariant
            lo <= b,
            b <= hi + 1,
            hi <= 0x7e,
            cs@.len() >= old(cs)@.len(),
            forall|k: int|
                old(cs)@.len() <= k < cs@.len() ==> lo as char <= #[trigger] cs@[k] <= hi as char
                    && (exclude_ambiguous ==> !is_ambiguous_char(cs@[k])),
            forall|k: int| 0 <= k < old(cs)@.len() ==> #[trigger] cs@[k] == old(cs)@[k],
            forall|c: u8|
                lo <= c < b && !(exclude_ambiguous && is_ambiguous_char(c as char))
                    ==> #[trigger] cs@.contains(c as char),
        decreases hi + 1 - b,
    {
        let c = b as char;
        let ghost before = cs@;
        if !(exclude_ambiguous && is_ambiguous_exec(c)) {
            cs.push(c);
            proof {
                assert(cs@[before.len() as int] == c);
                assert(cs@.contains(c));
            }
        }
        proof {
            assert forall|c2: u8|
                lo <= c2 < b + 1 && !(exclude_ambiguous && is_ambiguous_char(
                    c2 as char,
                )) implies #[trigger] cs@.contains(c2 as char) by {
                if c2 < b {
                    assert(before.contains(c2 as char));
                    let i = choose|i: int| 0 <= i < before.len() && before[i] == c2 as char;
                    assert(cs@[i] == c2 as char);
                } else {
                    assert(cs@.contains(c));
                }
            }
        }
        b += 1;
    }
}

/// The full character set of a configuration: the union of the enabled
/// classes, or lowercase when none is enabled, minus ambiguous characters
/// when excluded. Never empty.
fn build_charset(cfg: &PasswordConfig) -> (cs: Vec<char>)
    ensures
        cs@.len() > 0,
        forall|k: int| 0 <= k < cs@.len() ==> char_allowed(*cfg, #[trigger] cs@[k]),
{
    let mut cs: Vec<char> = Vec::new();
    let any = cfg.uppercase || cfg.lowercase || cfg.digits || cfg.symbols;
    if cfg.uppercase {
        push_char_range(&mut cs, 0x41, 0x5a, cfg.exclude_ambiguous);
        proof {
            assert(cs@.contains(0x41u8 as char));
        }
    }
    if cfg.lowercase {
        push_char_range(&mut cs, 0x61, 0x7a, cfg.exclude_ambiguous);
        proof {
            assert(cs@.contains(0x61u8 as char));
        }
    }
    if cfg.digits {
        push_char_range(&mut cs, 0x30, 0x39, cfg.exclude_ambiguous);
        proof {
            assert(cs@.contains(0x32u8 as char));
        }
    }
    if cfg.symbols {
        let ghost before = cs@;
        push_symbols(&mut cs, cfg.exclude_ambiguous);
    }
    if !any {
        push_char_range(&mut cs, 0x61, 0x7a, cfg.exclude_ambiguous);
        proof {
            assert(cs@.contains(0x61u8 as char));
        }
    }
    cs
}

/// Push the symbol characters; none of them is ambiguous.
fn push_symbols(cs: &mut Vec<char>, exclude_ambiguous: bool)
    ensures
        final(cs)@.len() > old(cs)@.len(),
        forall|k: int|
            old(cs)@.len() <= k < final(cs)@.len() ==> is_symbol_char(#[trigger] final(cs)@[k])
                && !is_ambiguous_char(final(cs)@[k]),
        forall|k: int| 0 <= k < old(cs)@.len() ==> #[trigger] final(cs)@[k] == old(cs)@[k],
{
    cs.push('!');
    cs.push('@');
    cs.push('#');
    cs.push('$');
    cs.push('%');
    cs.push('^');
    cs.push('&');
    cs.push('*');
    cs.push('(');
    cs.push(')');
    cs.push('-');
    cs.push('_');
    cs.push('=');
    cs.push('+');
    cs.push('[');
    cs.push(']');
    cs.push('{');
    cs.push('}');
    cs.push('|');
    cs.push(';');
    cs.push(':');
    cs.push(',');
    cs.push('.');
    cs.push('<');
    cs.push('>');
    cs.push('?');
}

/// One candidate: `length` characters drawn independently from the set.
fn random_candidate(cs: &Vec<char>, length: usize) -> (r: Vec<char>)
    requires
        cs@.len() > 0,
    ensures
        r@.len() == length,
        forall|k: int| 0 <= k < r@.len() ==> cs@.contains(#[trigger] r@[k]),
{
    let mut r: Vec<char> = Vec::new();
    let mut k: usize = 0;
    while k < length
        invariant
            k <= length,
            cs@.len() > 0,
            r@.len() == k,
            forall|l: int| 0 <= l < r@.len() ==> cs@.contains(#[trigger] r@[l]),
        decreases length - k,
    {
        let i = random_index(cs.len());
        r.push(cs[i]);
        k += 1;
    }
    r
}

/// Does the candidate contain a character of every enabled class?
fn candidate_meets(cand: &Vec<char>, cfg: &PasswordConfig) -> (r: bool)
    ensures
        r == meets_requirements_spec(*cfg, cand@),
{
    let mut has_upper = false;
    let mut has_lower = false;
    let mut has_digit = false;
    let mut has_symbol = false;
    let mut k: usize = 0;
    while k < cand.len()
        invariant
            k <= cand@.len(),
            has_upper == exists|l: int| 0 <= l < k && is_upper_char(#[trigger] cand@[l]),
            has_lower == exists|l: int| 0 <= l < k && is_lower_char(#[trigger] cand@[l]),
            has_digit == exists|l: int| 0 <= l < k && is_digit_char(#[trigger] cand@[l]),
            has_symbol == exists|l: int| 0 <= l < k && is_symbol_char(#[trigger] cand@[l]),
        decreases cand@.len() - k,
    {
        let c = cand[k];
        if c >= 'A' && c <= 'Z' {
            has_upper = true;
        }
        if c >= 'a' && c <= 'z' {
            has_lower = true;
        }
        if c >= '0' && c <= '9' {
            has_digit = true;
        }
        if is_symbol_exec(c) {
            has_symbol = true;
        }
        k += 1;
    }
    (!cfg.uppercase || has_upper) && (!cfg.lowercase || has_lower) && (!cfg.digits || has_digit)
        && (!cfg.symbols || has_symbol)
}

/// Does the password contain a character of every class its configuration
/// enables?
pub fn meets_requirements(password: &str, config: &PasswordConfig) -> (r: bool)
    ensures
        r == meets_requirements_spec(*config, password@),
{
    let chars = str_to_chars(password);
    candidate_meets(&chars, config)
}

/// The characters of a string, in order.
fn str_to_chars(s: &str) -> (r: Vec<char>)
    ensures
        r@ == s@,
{
    let n = s.unicode_len();
    let mut r: Vec<char> = Vec::new();
    let mut k: usize = 0;
    while k < n
        invariant
            k <= n,
            n == s@.len(),
            r@ == s@.take(k as int),
        decreases n - k,
    {
        r.push(s.get_char(k));
        proof {
            assert(r@ =~= s@.take(k + 1 as int));
        }
        k += 1;
    }
    proof {
        assert(s@.take(n as int) =~= s@);
    }
    r
}

/// The string of a character vector.
fn chars_to_string(cand: Vec<char>) -> (r: String)
    ensures
        r@ == cand@,
{
    let mut r = String::new();
    let mut k: usize = 0;
    while k < cand.len()
        invariant
            k <= cand@.len(),
            r@ == cand@.take(k as int),
        decreases cand@.len() - k,
    {
        r.push(cand[k]);
        proof {
            assert(r@ =~= cand@.take(k + 1 as int));
        }
        k += 1;
    }
    proof {
        assert(cand@.take(cand@.len() as int) =~= cand@);
    }
    r
}

/// Generate a password of the configured length from the configured
/// character set. Whenever the length can accommodate one character of each
/// enabled class, the result contains all of them; candidates are drawn at
/// random and, should none satisfy that within a bounded number of attempts,
/// the last candidate is patched with one fixed character per missing class.
pub fn generate_password(config: &PasswordConfig) -> (r: String)
    ensures
        r@.len() == config.length,
        forall|k: int| 0 <= k < r@.len() ==> char_allowed(*config, #[trigger] r@[k]),
        enabled_classes(*config) <= config.length ==> meets_requirements_spec(*config, r@),
{
    let cs = build_charset(config);
    let mut attempts: u32 = 0;
    while attempts < 16
        invariant
            cs@.len() > 0,
            forall|k: int| 0 <= k < cs@.len() ==> char_allowed(*config, #[trigger] cs@[k]),
        decreases 16 - attempts,
    {
        let cand = random_candidate(&cs, config.length);
        if candidate_meets(&cand, config) {
            return chars_to_string(cand);
        }
        attempts += 1;
    }
    let mut cand = random_candidate(&cs, config.length);
    let ghost orig = cand@;
    let n = cand.len();
    let mut pos: usize = 0;
    let ghost mut ui: int = -1;
    let ghost mut li: int = -1;
    let ghost mut di: int = -1;
    let ghost mut si: int = -1;
    if config.uppercase && pos < n {
        cand.set(pos, 'A');
        proof {
            ui = pos as int;
        }
        pos += 1;
    }
    if config.lowercase && pos < n {
        cand.set(pos, 'a');
        proof {
            li = pos as int;
        }
        pos += 1;
    }
    if config.digits && pos < n {
        cand.set(pos, '2');
        proof {
            di = pos as int;
        }
        pos += 1;
    }
    if config.symbols && pos < n {
        cand.set(pos, '!');
        proof {
            si = pos as int;
        }
        pos += 1;
    }
    proof {
        assert forall|k: int| 0 <= k < cand@.len() implies char_allowed(
            *config,
            #[trigger] cand@[k],
        ) by {
            if k == ui {
                assert(cand@[k] == 'A');
            } else if k == li {
                assert(cand@[k] == 'a');
            } else if k == di {
                assert(cand@[k] == '2');
            } else if k == si {
                assert(cand@[k] == '!');
            } else {
                assert(cand@[k] == orig[k]);
                assert(cs@.contains(orig[k]));
                let j = choose|j: int| 0 <= j < cs@.len() && cs@[j] == orig[k];
                assert(char_allowed(*config, cs@[j]));
            }
        }
        if enabled_classes(*config) <= config.length {
            if config.uppercase {
                assert(0 <= ui < cand@.len() && cand@[ui] == 'A');
                assert(is_upper_char(cand@[ui]));
            }
            if config.lowercase {
                assert(0 <= li < cand@.len() && cand@[li] == 'a');
                assert(is_lower_char(cand@[li]));
            }
            if config.digits {
                assert(0 <= di < cand@.len() && cand@[di] == '2');
                assert(is_digit_char(cand@[di]));
            }
            if config.symbols {
                assert(0 <= si < cand@.len() && cand@[si] == '!');
                assert(is_symbol_char(cand@[si]));
            }
        }
    }
    chars_to_string(cand)
}

} // verus!
