//! The numeral codec: decoding a digit-script literal to a signed 32-bit
//! integer and rendering an integer back into the script.
//!
//! Two scripts share one shape of mapping table: plain ASCII digits and the
//! Devanagari digits U+0966..U+096F.  Decoding splits the input into grapheme
//! clusters, maps each Devanagari digit cluster to its ASCII digit, passes
//! everything else through unchanged, and reads the result as a decimal
//! integer; any unmapped cluster or an out-of-range value makes the whole
//! literal invalid.  Encoding renders base-10 digits most significant first,
//! with a leading minus sign for negatives and no leading zeroes.

use vstd::prelude::*;
use vstd::string::StringExecFns;
use vstd::string::StrSliceExecFns;
use unicode_segmentation::UnicodeSegmentation;

verus! {

use crate::ast::bounded;

/// Which digit script a parser instance reads and writes.
#[derive(Debug, PartialEq, Eq, Clone, Copy, Structural)]
pub enum Script {
    Ascii,
    Devanagari,
}

/// The value of an ASCII digit character, if it is one.
pub open spec fn ascii_digit_value(c: char) -> Option<int> {
    if 0x30 <= c as int && c as int <= 0x39 {
        Some(c as int - 0x30)
    } else {
        None
    }
}

/// The value of a Devanagari digit character, if it is one.
pub open spec fn devanagari_digit_value(c: char) -> Option<int> {
    if 0x966 <= c as int && c as int <= 0x96f {
        Some(c as int - 0x966)
    } else {
        None
    }
}

/// The value of a digit character of the given script, if it is one.
pub open spec fn digit_value(sc: Script, c: char) -> Option<int> {
    match sc {
        Script::Ascii => ascii_digit_value(c),
        Script::Devanagari => devanagari_digit_value(c),
    }
}

pub open spec fn is_script_digit(sc: Script, c: char) -> bool {
    digit_value(sc, c) is Some
}

/// The digit character of `d` (0 to 9) in the given script.
pub open spec fn digit_char(sc: Script, d: int) -> char {
    match sc {
        Script::Ascii => if d == 0 {
            '0'
        } else if d == 1 {
            '1'
        } else if d == 2 {
            '2'
        } else if d == 3 {
            '3'
        } else if d == 4 {
            '4'
        } else if d == 5 {
            '5'
        } else if d == 6 {
            '6'
        } else if d == 7 {
            '7'
        } else if d == 8 {
            '8'
        } else {
            '9'
        },
        Script::Devanagari => if d == 0 {
            '\u{966}'
        } else if d == 1 {
            '\u{967}'
        } else if d == 2 {
            '\u{968}'
        } else if d == 3 {
            '\u{969}'
        } else if d == 4 {
            '\u{96a}'
        } else if d == 5 {
            '\u{96b}'
        } else if d == 6 {
            '\u{96c}'
        } else if d == 7 {
            '\u{96d}'
        } else if d == 8 {
            '\u{96e}'
        } else {
            '\u{96f}'
        },
    }
}

/// The base-10 digits of `n`, most significant first; never empty, and with
/// no leading zero except for `n == 0` itself.
pub open spec fn digits_of(n: nat) -> Seq<int>
    decreases n,
{
    if n < 10 {
        seq![n as int]
    } else {
        digits_of(n / 10).push((n % 10) as int)
    }
}

/// The value of a base-10 digit sequence, most significant first.
pub open spec fn from_digits(ds: Seq<int>) -> int
    decreases ds.len(),
{
    if ds.len() == 0 {
        0
    } else {
        from_digits(ds.drop_last()) * 10 + ds.last()
    }
}

pub open spec fn all_digit_values(ds: Seq<int>) -> bool {
    forall|i: int| 0 <= i < ds.len() ==> 0 <= #[trigger] ds[i] <= 9
}

/// The characters of a digit sequence in the given script.
pub open spec fn digit_chars(sc: Script, ds: Seq<int>) -> Seq<char> {
    ds.map_values(|d: int| digit_char(sc, d))
}

/// The canonical spelling of `v` in the given script: base-10 digits, most
/// significant first, with a leading `-` for negative values.
pub open spec fn spec_encode(sc: Script, v: int) -> Seq<char> {
    if v < 0 {
        seq!['-'] + digit_chars(sc, digits_of((-v) as nat))
    } else {
        digit_chars(sc, digits_of(v as nat))
    }
}

pub open spec fn all_ascii_digits(s: Seq<char>) -> bool {
    forall|i: int| 0 <= i < s.len() ==> ascii_digit_value(#[trigger] s[i]) is Some
}

pub open spec fn ascii_digit_values(s: Seq<char>) -> Seq<int> {
    s.map_values(|c: char| ascii_digit_value(c).unwrap())
}

/// Reading a character sequence as a decimal 32-bit integer, exactly as the
/// platform's integer parser does: an optional `+` or `-` sign, then one or
/// more ASCII digits, rejected when the value leaves the 32-bit range.
pub open spec fn spec_parse_i32(s: Seq<char>) -> Option<int> {
    let signed = s.len() > 0 && (s[0] == '+' || s[0] == '-');
    let neg = s.len() > 0 && s[0] == '-';
    let ds = if signed {
        s.subrange(1, s.len() as int)
    } else {
        s
    };
    if ds.len() > 0 && all_ascii_digits(ds) {
        let m = from_digits(ascii_digit_values(ds));
        let v = if neg {
            -m
        } else {
            m
        };
        if bounded(v) {
            Some(v)
        } else {
            None
        }
    } else {
        None
    }
}

/// How the codec treats one grapheme cluster: a lone Devanagari digit becomes
/// its ASCII digit, everything else passes through unchanged.
pub open spec fn map_cluster(g: Seq<char>) -> Seq<char> {
    if g.len() == 1 && devanagari_digit_value(g[0]) is Some {
        seq![digit_char(Script::Ascii, devanagari_digit_value(g[0]).unwrap())]
    } else {
        g
    }
}

/// The ASCII text that a sequence of grapheme clusters is mapped to.
pub open spec fn mapped_text(gs: Seq<Seq<char>>) -> Seq<char> {
    gs.flat_map(|g: Seq<char>| map_cluster(g))
}

/// What decoding a sequence of grapheme clusters yields.
pub open spec fn spec_decode(gs: Seq<Seq<char>>) -> Option<int> {
    spec_parse_i32(mapped_text(gs))
}

/// The grapheme clusters of a character sequence, as the segmentation
/// library computes them.  What the clusters are is stated only by the
/// contract of [`split_graphemes`].
pub uninterp spec fn graphemes_of(s: Seq<char>) -> Seq<Seq<char>>;

/// A character that forms a grapheme cluster of its own next to any other
/// such character: the minus sign, the ASCII digits and the Devanagari
/// digits.  None of them carries a grapheme-break property that could join
/// it to a neighbour.
pub open spec fn standalone_char(c: char) -> bool {
    c == '-' || ascii_digit_value(c) is Some || devanagari_digit_value(c) is Some
}

/// One cluster per character.
pub open spec fn singletons(s: Seq<char>) -> Seq<Seq<char>> {
    Seq::new(s.len(), |i: int| seq![s[i]])
}

/// Relies on `unicode_segmentation::UnicodeSegmentation::graphemes` with
/// extended grapheme clusters: the clusters are non-empty substrings that
/// concatenate back to the input, and a string made only of ASCII digits,
/// Devanagari digits and `-` splits into one cluster per character (none of
/// those characters appears in the crate's grapheme-break table, so the
/// default rule breaks between any two of them).
#[verifier::external_body]
fn split_graphemes(s: &str) -> (r: Vec<String>)
    ensures
        r@.map_values(|g: String| g@) == graphemes_of(s@),
        r@.map_values(|g: String| g@).flat_map(|g: Seq<char>| g) == s@,
        (forall|i: int| 0 <= i < s@.len() ==> standalone_char(#[trigger] s@[i])) ==> r@.map_values(
            |g: String| g@,
        ) == singletons(s@),
{
    s.graphemes(true).map(|g| g.to_string()).collect()
}

/// Relies on `String`'s `FromIterator<char>`: collecting characters yields
/// the string spelled by exactly those characters in order.
#[verifier::external_body]
pub(crate) fn string_from_chars(cs: &Vec<char>) -> (r: String)
    ensures
        r@ == cs@,
{
    cs.iter().collect()
}

/// A digit sequence values a non-negative integer, and no prefix values more
/// than the whole.
pub proof fn lemma_from_digits_bounds(ds: Seq<int>, j: int)
    requires
        all_digit_values(ds),
        0 <= j <= ds.len(),
    ensures
        0 <= from_digits(ds.take(j)) <= from_digits(ds),
    decreases ds.len(),
{
    if ds.len() == 0 {
        assert(ds.take(j) =~= ds);
    } else if j == ds.len() {
        assert(ds.take(j) =~= ds);
        lemma_from_digits_bounds(ds.drop_last(), ds.len() - 1);
        assert(ds.drop_last().take(ds.len() - 1) =~= ds.drop_last());
    } else {
        let dl = ds.drop_last();
        assert(all_digit_values(dl));
        assert(ds.take(j) =~= dl.take(j));
        lemma_from_digits_bounds(dl, j);
        lemma_from_digits_bounds(dl, dl.len() as int);
        assert(dl.take(dl.len() as int) =~= dl);
        assert(from_digits(ds) == from_digits(dl) * 10 + ds.last());
        assert(from_digits(dl) * 10 >= from_digits(dl)) by (nonlinear_arith)
            requires from_digits(dl) >= 0;
    }
}

/// Taking one more digit multiplies the prefix value by ten and adds it.
pub proof fn lemma_from_digits_step(ds: Seq<int>, k: int)
    requires
        0 <= k < ds.len(),
    ensures
        from_digits(ds.take(k + 1)) == from_digits(ds.take(k)) * 10 + ds[k],
{
    assert(ds.take(k + 1).drop_last() =~= ds.take(k));
    assert(ds.take(k + 1).last() == ds[k]);
}

/// The digit expansion of a value is made of digits, is never empty, and
/// values the number it expands.
pub proof fn lemma_digits_of(n: nat)
    ensures
        digits_of(n).len() >= 1,
        all_digit_values(digits_of(n)),
        from_digits(digits_of(n)) == n,
    decreases n,
{
    if n < 10 {
        reveal_with_fuel(from_digits, 2);
        assert(digits_of(n).drop_last() =~= Seq::<int>::empty());
    } else {
        lemma_digits_of(n / 10);
        let ds = digits_of(n);
        assert(ds.drop_last() =~= digits_of(n / 10));
        assert(ds.last() == (n % 10) as int);
        assert(from_digits(ds) == from_digits(digits_of(n / 10)) * 10 + (n % 10) as int);
        assert(from_digits(digits_of(n / 10)) == (n / 10) as int);
        assert((n / 10) as int * 10 + (n % 10) as int == n as int) by {
            vstd::arithmetic::div_mod::lemma_fundamental_div_mod(n as int, 10);
        }
        assert(from_digits(ds) == n as int);
    }
}

/// A digit character of either script carries its value, stands alone in a
/// grapheme split, and is not a sign character.
pub proof fn lemma_digit_char_value(sc: Script, d: int)
    requires
        0 <= d <= 9,
    ensures
        digit_value(sc, digit_char(sc, d)) == Some(d),
        standalone_char(digit_char(sc, d)),
        digit_char(sc, d) != '+',
        digit_char(sc, d) != '-',
{
}

/// What a character becomes under the cluster mapping when it stands alone.
pub open spec fn to_ascii_char(c: char) -> char {
    if devanagari_digit_value(c) is Some {
        digit_char(Script::Ascii, devanagari_digit_value(c).unwrap())
    } else {
        c
    }
}

/// Splitting one cluster per character, the mapped text is the input with
/// each Devanagari digit replaced by its ASCII digit.
pub proof fn lemma_mapped_singletons(s: Seq<char>)
    ensures
        mapped_text(singletons(s)) == s.map_values(|c: char| to_ascii_char(c)),
    decreases s.len(),
{
    let f = |g: Seq<char>| map_cluster(g);
    if s.len() == 0 {
        assert(singletons(s) =~= Seq::<Seq<char>>::empty());
        reveal_with_fuel(Seq::flatten, 2);
        assert(mapped_text(singletons(s)) =~= s.map_values(|c: char| to_ascii_char(c)));
    } else {
        let sd = s.drop_last();
        lemma_mapped_singletons(sd);
        assert(singletons(s) =~= singletons(sd).push(seq![s.last()]));
        singletons(sd).lemma_flat_map_push(f, seq![s.last()]);
        assert(f(seq![s.last()]) =~= seq![to_ascii_char(s.last())]);
        assert(mapped_text(singletons(s)) =~= sd.map_values(|c: char| to_ascii_char(c)) + seq![
            to_ascii_char(s.last())
        ]);
        assert(s.map_values(|c: char| to_ascii_char(c)) =~= sd.map_values(
            |c: char| to_ascii_char(c),
        ) + seq![to_ascii_char(s.last())]);
    }
}

/// The codec round trip: decoding the character-per-cluster split of the
/// canonical Devanagari spelling of any 32-bit value gives the value back.
/// Since every validly spelled literal without leading zero padding is the
/// canonical spelling of its value, this also says that such a literal
/// re-encodes to itself.
pub proof fn lemma_codec_round_trip(v: i32)
    ensures
        spec_decode(singletons(spec_encode(Script::Devanagari, v as int))) == Some(v as int),
        forall|i: int|
            0 <= i < spec_encode(Script::Devanagari, v as int).len() ==> standalone_char(
                #[trigger] spec_encode(Script::Devanagari, v as int)[i],
            ),
{
    let s = spec_encode(Script::Devanagari, v as int);
    let mag: nat = if v < 0 {
        (-(v as int)) as nat
    } else {
        v as nat
    };
    let ds = digits_of(mag);
    lemma_digits_of(mag);
    lemma_mapped_singletons(s);
    let a = s.map_values(|c: char| to_ascii_char(c));
    let dcs = digit_chars(Script::Ascii, ds);
    assert forall|i: int| 0 <= i < ds.len() implies {
        &&& to_ascii_char(digit_char(Script::Devanagari, ds[i])) == digit_char(Script::Ascii, ds[i])
        &&& ascii_digit_value(digit_char(Script::Ascii, ds[i])) == Some(ds[i])
        &&& standalone_char(digit_char(Script::Devanagari, ds[i]))
        &&& digit_char(Script::Ascii, ds[i]) != '+'
        &&& digit_char(Script::Ascii, ds[i]) != '-'
    } by {
        lemma_digit_char_value(Script::Devanagari, ds[i]);
        lemma_digit_char_value(Script::Ascii, ds[i]);
    }
    if v >= 0 {
        assert(s =~= digit_chars(Script::Devanagari, ds));
        assert(a =~= dcs);
        assert(all_ascii_digits(dcs));
        assert(ascii_digit_values(dcs) =~= ds);
        assert(spec_parse_i32(a) == Some(v as int));
    } else {
        assert(s =~= seq!['-'] + digit_chars(Script::Devanagari, ds));
        assert(a =~= seq!['-'] + dcs);
        assert(a[0] == '-');
        let tail = a.subrange(1, a.len() as int);
        assert(tail =~= dcs);
        assert(all_ascii_digits(dcs));
        assert(ascii_digit_values(dcs) =~= ds);
        assert(spec_parse_i32(a) == Some(v as int));
    }
}

/// The other direction of the round trip: a validly spelled literal with no
/// leading zero padding -- that is, the canonical spelling of some value --
/// decodes to that value, and re-encoding the value respells the literal
/// exactly.
pub proof fn lemma_literal_round_trip(s: Seq<char>, v: i32)
    requires
        s == spec_encode(Script::Devanagari, v as int),
    ensures
        match spec_decode(singletons(s)) {
            Some(u) => spec_encode(Script::Devanagari, u) == s,
            None => false,
        },
{
    lemma_codec_round_trip(v);
}

/// The value of an ASCII digit character, executably.
fn ascii_value_of(c: char) -> (r: Option<u8>)
    ensures
        match r {
            Some(d) => ascii_digit_value(c) == Some(d as int) && d <= 9,
            None => ascii_digit_value(c) is None,
        },
{
    let u = c as u32;
    if 0x30 <= u && u <= 0x39 {
        Some((u - 0x30) as u8)
    } else {
        None
    }
}

/// The value of a Devanagari digit character, executably.
fn devanagari_value_of(c: char) -> (r: Option<u8>)
    ensures
        match r {
            Some(d) => devanagari_digit_value(c) == Some(d as int) && d <= 9,
            None => devanagari_digit_value(c) is None,
        },
{
    let u = c as u32;
    if 0x966 <= u && u <= 0x96f {
        Some((u - 0x966) as u8)
    } else {
        None
    }
}

/// The value of a digit character of the given script, executably.
pub(crate) fn script_value_of(sc: Script, c: char) -> (r: Option<u8>)
    ensures
        match r {
            Some(d) => digit_value(sc, c) == Some(d as int) && d <= 9,
            None => digit_value(sc, c) is None,
        },
{
    match sc {
        Script::Ascii => ascii_value_of(c),
        Script::Devanagari => devanagari_value_of(c),
    }
}

/// The digit character of `d` in the given script, executably.
fn digit_char_of(sc: Script, d: u8) -> (c: char)
    requires
        d <= 9,
    ensures
        c == digit_char(sc, d as int),
{
    match sc {
        Script::Ascii => match d {
            0 => '0',
            1 => '1',
            2 => '2',
            3 => '3',
            4 => '4',
            5 => '5',
            6 => '6',
            7 => '7',
            8 => '8',
            _ => '9',
        },
        Script::Devanagari => match d {
            0 => '\u{966}',
            1 => '\u{967}',
            2 => '\u{968}',
            3 => '\u{969}',
            4 => '\u{96a}',
            5 => '\u{96b}',
            6 => '\u{96c}',
            7 => '\u{96d}',
            8 => '\u{96e}',
            _ => '\u{96f}',
        },
    }
}

/// Reads a character sequence as a decimal 32-bit integer, exactly as
/// [`spec_parse_i32`] states.
fn parse_decimal(cs: &Vec<char>) -> (r: Option<i32>)
    ensures
        match r {
            Some(v) => spec_parse_i32(cs@) == Some(v as int),
            None => spec_parse_i32(cs@) is None,
        },
{
    let n = cs.len();
    if n == 0 {
        return None;
    }
    let c0 = cs[0];
    let signed = c0 == '+' || c0 == '-';
    let neg = c0 == '-';
    let start: usize = if signed {
        1
    } else {
        0
    };
    if start == n {
        return None;
    }
    let ghost ds = cs@.subrange(start as int, n as int);
    let ghost vals = ascii_digit_values(ds);
    proof {
        if !signed {
            assert(cs@.subrange(0, n as int) =~= cs@);
        }
    }
    let mut m: u64 = 0;
    let mut k: usize = start;
    while k < n
        invariant
            start <= k <= n,
            n == cs@.len(),
            start < n,
            signed == (cs@.len() > 0 && (cs@[0] == '+' || cs@[0] == '-')),
            neg == (cs@.len() > 0 && cs@[0] == '-'),
            start == if signed { 1int } else { 0int },
            ds == cs@.subrange(start as int, n as int),
            ds == if signed { cs@.subrange(1, cs@.len() as int) } else { cs@ },
            vals == ascii_digit_values(ds),
            m <= 0x8000_0000,
            forall|j: int| 0 <= j < k - start ==> ascii_digit_value(#[trigger] ds[j]) is Some,
            m == from_digits(vals.take(k - start)),
        decreases n - k,
    {
        let ghost j = k - start;
        let c = cs[k];
        assert(ds[j] == c);
        match ascii_value_of(c) {
            None => {
                proof {
                    assert(!all_ascii_digits(ds));
                }
                return None;
            },
            Some(d) => {
                proof {
                    lemma_from_digits_step(vals, j);
                    assert(vals[j] == d as int);
                }
                let m2 = m * 10 + (d as u64);
                if m2 > 0x8000_0000 {
                    proof {
                        if all_ascii_digits(ds) {
                            assert forall|t: int| 0 <= t < vals.len() implies 0 <= #[trigger] vals[t] <= 9 by {
                                assert(ascii_digit_value(ds[t]) is Some);
                            }
                            lemma_from_digits_bounds(vals, j + 1);
                            assert(from_digits(vals) >= m2);
                        }
                        assert(spec_parse_i32(cs@) is None);
                    }
                    return None;
                }
                m = m2;
                k = k + 1;
            },
        }
    }
    proof {
        assert(vals.take(n - start) =~= vals);
        assert(all_ascii_digits(ds));
        assert(from_digits(vals) == m as int);
    }
    if neg {
        let v = (-(m as i64)) as i32;
        proof {
            assert(-0x8000_0000 <= -(m as i64) <= 0);
            assert(v as int == -(m as int));
            assert(spec_parse_i32(cs@) == Some(-(m as int)));
        }
        Some(v)
    } else {
        if m > 0x7fff_ffff {
            proof {
                assert(m == 0x8000_0000);
                assert(spec_parse_i32(cs@) is None);
            }
            None
        } else {
            Some(m as i32)
        }
    }
}

/// Decodes a sequence of grapheme clusters: Devanagari digit clusters are
/// mapped to ASCII digits, everything else passes through, and the result is
/// read as a decimal 32-bit integer.
pub fn decode_clusters(gs: &Vec<String>) -> (r: Option<i32>)
    ensures
        match r {
            Some(v) => spec_decode(gs@.map_values(|g: String| g@)) == Some(v as int),
            None => spec_decode(gs@.map_values(|g: String| g@)) is None,
        },
{
    let ghost views = gs@.map_values(|g: String| g@);
    let ghost f = |g: Seq<char>| map_cluster(g);
    let mut mapped: Vec<char> = Vec::new();
    let mut i: usize = 0;
    while i < gs.len()
        invariant
            i <= gs.len(),
            views == gs@.map_values(|g: String| g@),
            f == (|g: Seq<char>| map_cluster(g)),
            mapped@ == views.take(i as int).flat_map(f),
        decreases gs.len() - i,
    {
        let ghost mapped0 = mapped@;
        let g: &String = &gs[i];
        proof {
            assert(views[i as int] == g@);
        }
        let glen = g.as_str().unicode_len();
        if glen == 1 {
            let c = g.as_str().get_char(0);
            match devanagari_value_of(c) {
                Some(d) => {
                    mapped.push(digit_char_of(Script::Ascii, d));
                },
                None => {
                    mapped.push(c);
                },
            }
            proof {
                assert(g@ =~= seq![c]);
                assert(mapped@ =~= mapped0 + map_cluster(views[i as int]));
            }
        } else {
            let mut j: usize = 0;
            while j < glen
                invariant
                    j <= glen,
                    glen == g@.len(),
                    mapped@ == mapped0 + g@.take(j as int),
                decreases glen - j,
            {
                mapped.push(g.as_str().get_char(j));
                proof {
                    assert(mapped@ =~= mapped0 + g@.take(j as int + 1));
                }
                j = j + 1;
            }
            proof {
                assert(g@.take(glen as int) =~= g@);
                assert(map_cluster(views[i as int]) == g@);
                assert(mapped@ =~= mapped0 + map_cluster(views[i as int]));
            }
        }
        proof {
            views.lemma_flat_map_take_append(f, i as int);
            assert(mapped@ =~= views.take(i as int + 1).flat_map(f));
        }
        i = i + 1;
    }
    proof {
        assert(views.take(gs.len() as int) =~= views);
        assert(mapped@ == mapped_text(views));
    }
    parse_decimal(&mapped)
}

/// Why a numeral literal failed to decode: the original text, kept verbatim.
#[derive(Debug, PartialEq, Eq, Clone)]
pub enum NumeralError {
    Invalid(String),
}

/// A number spelled in the Devanagari numeral script, wrapping the signed
/// 32-bit value it denotes.
#[derive(Debug, PartialEq, Eq, Clone, Copy, Structural)]
pub struct Sankhya(pub i32);

impl Sankhya {
    /// Decodes a numeral-script literal: grapheme clusters are split off,
    /// Devanagari digits are transliterated, and the text is read as a
    /// decimal 32-bit integer.  Any unmapped cluster or out-of-range value
    /// yields `NumeralError::Invalid` carrying the original text.
    ///
    /// The last clause is the codec round-trip law: the canonical spelling
    /// of any 32-bit value decodes back to that value.
    pub fn from_str(s: &str) -> (r: Result<Sankhya, NumeralError>)
        ensures
            match r {
                Ok(k) => spec_decode(graphemes_of(s@)) == Some(k.0 as int),
                Err(e) => spec_decode(graphemes_of(s@)) is None && (e matches
                NumeralError::Invalid(t) && t@ == s@),
            },
            forall|v: i32|
                s@ == spec_encode(Script::Devanagari, v as int) ==> (r matches Ok(k) && k.0 == v),
    {
        let gs = split_graphemes(s);
        let r = decode_clusters(&gs);
        proof {
            assert forall|v: i32|
                s@ == spec_encode(Script::Devanagari, v as int) implies (match r {
                Some(u) => u == v,
                None => false,
            }) by {
                lemma_codec_round_trip(v);
                assert(gs@.map_values(|g: String| g@) == singletons(s@));
                assert(spec_decode(graphemes_of(s@)) == Some(v as int));
            }
        }
        match r {
            Some(v) => Ok(Sankhya(v)),
            None => Err(NumeralError::Invalid(String::from_str(s))),
        }
    }

    /// Renders the value in the Devanagari script: base-10 digits, most
    /// significant first, a leading minus sign for negatives, no leading
    /// zeroes.
    pub fn to_text(&self) -> (r: String)
        ensures
            r@ == spec_encode(Script::Devanagari, self.0 as int),
    {
        let cs = render_chars(self.0);
        string_from_chars(&cs)
    }
}

/// The characters of the canonical Devanagari spelling of `v`.
fn render_chars(v: i32) -> (r: Vec<char>)
    ensures
        r@ == spec_encode(Script::Devanagari, v as int),
{
    let neg = v < 0;
    let mut m: u64 = if neg {
        (-(v as i64)) as u64
    } else {
        v as u64
    };
    let ghost n0: nat = m as nat;
    let mut rev: Vec<u8> = Vec::new();
    while m >= 10
        invariant
            digits_of(n0) == digits_of(m as nat) + rev@.map_values(|d: u8| d as int).reverse(),
            forall|t: int| 0 <= t < rev@.len() ==> #[trigger] rev@[t] <= 9,
        decreases m,
    {
        let ghost vals0 = rev@.map_values(|d: u8| d as int);
        let d = (m % 10) as u8;
        rev.push(d);
        proof {
            let vals1 = rev@.map_values(|d: u8| d as int);
            assert(vals1 =~= vals0.push(d as int));
            assert(vals1.reverse() =~= seq![d as int] + vals0.reverse());
            assert(digits_of(m as nat) == digits_of((m as nat) / 10).push((m % 10) as int));
            assert((m / 10) as nat == (m as nat) / 10);
            assert(digits_of((m as nat) / 10) + vals1.reverse() =~= digits_of(m as nat)
                + vals0.reverse());
        }
        m = m / 10;
    }
    let ghost valsf = rev@.map_values(|d: u8| d as int).push(m as int);
    proof {
        assert(valsf.reverse() =~= seq![m as int] + rev@.map_values(|d: u8| d as int).reverse());
        assert(digits_of(m as nat) == seq![m as int]);
        assert(digits_of(n0) =~= valsf.reverse());
    }
    rev.push(m as u8);
    proof {
        assert(rev@.map_values(|d: u8| d as int) =~= valsf);
    }
    let ghost dgs = digits_of(n0);
    let mut out: Vec<char> = Vec::new();
    if neg {
        out.push('-');
    }
    let ghost prefix = out@;
    let mut j = rev.len();
    while j > 0
        invariant
            j <= rev@.len(),
            rev@.map_values(|d: u8| d as int) == valsf,
            valsf.reverse() == dgs,
            dgs.len() == rev@.len(),
            forall|t: int| 0 <= t < rev@.len() ==> #[trigger] rev@[t] <= 9,
            out@ == prefix + digit_chars(Script::Devanagari, dgs.take(rev@.len() - j)),
        decreases j,
    {
        j = j - 1;
        let ghost k = rev@.len() - 1 - j;
        proof {
            assert(dgs[k] == valsf[j as int]);
        }
        let c = digit_char_of(Script::Devanagari, rev[j]);
        out.push(c);
        proof {
            assert(out@ =~= prefix + digit_chars(Script::Devanagari, dgs.take(k + 1)));
        }
    }
    proof {
        assert(dgs.take(rev@.len() as int) =~= dgs);
        if neg {
            assert(n0 == -(v as int));
            assert(out@ =~= seq!['-'] + digit_chars(Script::Devanagari, digits_of(n0)));
        } else {
            assert(out@ =~= digit_chars(Script::Devanagari, digits_of(n0)));
        }
    }
    out
}

} // verus!
