//! Unescaping of the HTML entities found in scraped titles and links.
use vstd::prelude::*;

use crate::text::{
    char_from_u32, chars_eq, chars_of, extend_range, has_prefix, parse_uint, parse_unsigned,
    string_of,
};

verus! {

/// The named entities that are understood, with their replacement text.
pub open spec fn named_entity(name: Seq<char>) -> Option<Seq<char>> {
    if name == seq!['a', 'm', 'p'] {
        Some(seq!['&'])
    } else if name == seq!['l', 't'] {
        Some(seq!['<'])
    } else if name == seq!['g', 't'] {
        Some(seq!['>'])
    } else if name == seq!['q', 'u', 'o', 't'] {
        Some(seq!['"'])
    } else if name == seq!['s', 'q', 'u', 'o', 't'] {
        Some(seq!['\''])
    } else if name == seq!['n', 'b', 's', 'p'] {
        Some(seq!['\u{a0}'])
    } else {
        None
    }
}

/// The Unicode scalar value `n` as a character, if it is one.
pub open spec fn scalar_char(n: nat) -> Option<char> {
    if n <= 0xD7FF || (0xE000 <= n <= 0x10FFFF) {
        Some((n as u32) as char)
    } else {
        None
    }
}

/// The text that the entity `&name;` stands for: a hexadecimal (`#x..`) or decimal (`#..`) character
/// reference, a named entity, or else the entity itself, unchanged.
#[verifier::opaque]
pub open spec fn decode_entity(name: Seq<char>) -> Seq<char> {
    let verbatim = seq!['&'] + name + seq![';'];
    if has_prefix(name, seq!['#', 'x']) {
        match parse_unsigned(name.skip(2), 16, 0xffff_ffff) {
            Some(n) => match scalar_char(n) {
                Some(c) => seq![c],
                None => verbatim,
            },
            None => verbatim,
        }
    } else if has_prefix(name, seq!['#']) {
        match parse_unsigned(name.skip(1), 10, 0xffff_ffff) {
            Some(n) => match scalar_char(n) {
                Some(c) => seq![c],
                None => verbatim,
            },
            None => verbatim,
        }
    } else {
        match named_entity(name) {
            Some(v) => v,
            None => verbatim,
        }
    }
}

/// The position of the first `c` in `s`, if any.
#[verifier::opaque]
pub open spec fn index_of_char(s: Seq<char>, c: char) -> Option<int> {
    if s.contains(c) {
        Some(choose|i: int| 0 <= i < s.len() && s[i] == c && forall|j: int| 0 <= j < i ==> s[j] != c)
    } else {
        None
    }
}

/// `s` with its entities unescaped. Text outside entities is kept; every `&` opens an entity that
/// runs to the next `;`. An entity that is never closed is kept as it stands, its `&` included.
#[verifier::opaque]
pub open spec fn unescaped(s: Seq<char>) -> Seq<char>
    decreases s.len(),
{
    match index_of_char(s, '&') {
        None => s,
        Some(i) => {
            let t = s.skip(i + 1);
            s.take(i) + match index_of_char(t, ';') {
                None => seq!['&'] + t,
                Some(j) => decode_entity(t.take(j)) + if 0 <= i < s.len() && 0 <= j < t.len() {
                    unescaped(t.skip(j + 1))
                } else {
                    Seq::empty()
                },
            }
        },
    }
}

proof fn lemma_unescaped_plain(r: Seq<char>)
    requires
        index_of_char(r, '&') is None,
    ensures
        unescaped(r) == r,
{
    reveal(unescaped);
}

proof fn lemma_unescaped_unclosed(r: Seq<char>, i: int)
    requires
        index_of_char(r, '&') == Some(i),
        0 <= i < r.len(),
        index_of_char(r.skip(i + 1), ';') is None,
    ensures
        unescaped(r) == r.take(i) + (seq!['&'] + r.skip(i + 1)),
{
    reveal(unescaped);
}

proof fn lemma_unescaped_entity(r: Seq<char>, i: int, j: int)
    requires
        index_of_char(r, '&') == Some(i),
        0 <= i < r.len(),
        index_of_char(r.skip(i + 1), ';') == Some(j),
        0 <= j < r.skip(i + 1).len(),
    ensures
        unescaped(r) == r.take(i) + decode_entity(r.skip(i + 1).take(j)) + unescaped(r.skip(i + 1).skip(j + 1)),
{
    reveal(unescaped);
    let t = r.skip(i + 1);
    assert(unescaped(r) == r.take(i) + (decode_entity(t.take(j)) + unescaped(t.skip(j + 1))));
}

proof fn lemma_index_of_char(s: Seq<char>, c: char, i: int)
    requires
        0 <= i < s.len(),
        s[i] == c,
        forall|j: int| 0 <= j < i ==> s[j] != c,
    ensures
        index_of_char(s, c) == Some(i),
{
    reveal(index_of_char);
    assert(s.contains(c));
    let w = choose|k: int| 0 <= k < s.len() && s[k] == c && forall|j: int| 0 <= j < k ==> s[j] != c;
    if w < i {
    } else if w > i {
    }
}

/// The first `c` in `s[from..]`, as an absolute position.
fn find_char_from(s: &[char], c: char, from: usize) -> (r: Option<usize>)
    requires
        from <= s@.len(),
    ensures
        r matches Some(k) ==> from <= k < s@.len() && index_of_char(s@.skip(from as int), c) == Some(k - from),
        r is None ==> index_of_char(s@.skip(from as int), c) is None,
{
    let mut k = from;
    while k < s.len()
        invariant
            from <= k <= s@.len(),
            forall|j: int| from <= j < k ==> s@[j] != c,
        decreases s@.len() - k,
    {
        if s[k] == c {
            proof {
                let t = s@.skip(from as int);
                assert forall|j: int| 0 <= j < k - from implies t[j] != c by {
                    assert(t[j] == s@[from + j]);
                }
                lemma_index_of_char(t, c, k - from);
            }
            return Some(k);
        }
        k = k + 1;
    }
    proof {
        reveal(index_of_char);
        let t = s@.skip(from as int);
        assert(!t.contains(c)) by {
            assert forall|j: int| 0 <= j < t.len() implies t[j] != c by {
                assert(t[j] == s@[from + j]);
            }
        }
    }
    None
}

fn is_named(name: &[char], lit: &[char]) -> (r: bool)
    ensures
        r == (name@ == lit@),
{
    chars_eq(name, lit)
}

/// The replacement for the entity `s[start..end]` (without its `&` and `;`).
fn decode_entity_exec(s: &[char], start: usize, end: usize, out: &mut Vec<char>)
    requires
        start <= end <= s@.len(),
    ensures
        final(out)@ == old(out)@ + decode_entity(s@.subrange(start as int, end as int)),
{
    reveal(decode_entity);
    let ghost name = s@.subrange(start as int, end as int);
    let n = end - start;
    let is_hex = n >= 2 && s[start] == '#' && s[start + 1] == 'x';
    assert(is_hex == has_prefix(name, seq!['#', 'x'])) by {
        if n >= 2 {
            assert(name.subrange(0, 2)[0] == s@[start as int]);
            assert(name.subrange(0, 2)[1] == s@[start + 1]);
            if s@[start as int] == '#' && s@[start + 1] == 'x' {
                assert(name.subrange(0, 2) =~= seq!['#', 'x']);
            }
        }
    }
    let is_num = n >= 1 && s[start] == '#';
    assert(is_num == has_prefix(name, seq!['#'])) by {
        if n >= 1 {
            assert(name.subrange(0, 1)[0] == s@[start as int]);
            if s@[start as int] == '#' {
                assert(name.subrange(0, 1) =~= seq!['#']);
            }
        }
    }
    if is_hex || is_num {
        let (digits_from, radix) = if is_hex { (start + 2, 16u32) } else { (start + 1, 10u32) };
        assert(s@.subrange(digits_from as int, end as int) == name.skip(digits_from - start));
        match parse_uint(s, digits_from, end, radix, 0xffff_ffff) {
            Some(v) => {
                match char_from_u32(v as u32) {
                    Some(c) => {
                        proof {
                            vstd::utf8::char_u32_cast(c, v as u32);
                            assert(scalar_char(v as nat) == Some(c));
                        }
                        out.push(c);
                        assert(out@ =~= old(out)@ + decode_entity(name));
                        return;
                    },
                    None => {},
                }
            },
            None => {},
        }
    } else {
        let amp = ['a', 'm', 'p'];
        let lt = ['l', 't'];
        let gt = ['g', 't'];
        let quot = ['q', 'u', 'o', 't'];
        let squot = ['s', 'q', 'u', 'o', 't'];
        let nbsp = ['n', 'b', 's', 'p'];
        let mut nm: Vec<char> = Vec::new();
        extend_range(&mut nm, s, start, end);
        assert(nm@ =~= name);
        let v: Option<char> = if is_named(nm.as_slice(), amp.as_slice()) {
            Some('&')
        } else if is_named(nm.as_slice(), lt.as_slice()) {
            Some('<')
        } else if is_named(nm.as_slice(), gt.as_slice()) {
            Some('>')
        } else if is_named(nm.as_slice(), quot.as_slice()) {
            Some('"')
        } else if is_named(nm.as_slice(), squot.as_slice()) {
            Some('\'')
        } else if is_named(nm.as_slice(), nbsp.as_slice()) {
            Some('\u{a0}')
        } else {
            None
        };
        assert(amp@ == seq!['a', 'm', 'p']);
        assert(lt@ == seq!['l', 't']);
        assert(gt@ == seq!['g', 't']);
        assert(quot@ == seq!['q', 'u', 'o', 't']);
        assert(squot@ == seq!['s', 'q', 'u', 'o', 't']);
        assert(nbsp@ == seq!['n', 'b', 's', 'p']);
        if let Some(c) = v {
            out.push(c);
            assert(out@ =~= old(out)@ + decode_entity(name));
            return;
        }
    }
    out.push('&');
    let mut k = start;
    while k < end
        invariant
            start <= k <= end <= s@.len(),
            out@ == old(out)@ + seq!['&'] + s@.subrange(start as int, k as int),
        decreases end - k,
    {
        out.push(s[k]);
        k = k + 1;
        assert(out@ =~= old(out)@ + seq!['&'] + s@.subrange(start as int, k as int));
    }
    out.push(';');
    assert(out@ =~= old(out)@ + decode_entity(name));
}

/// Unescapes the standard HTML entities `&amp;`, `&lt;`, `&gt;`, `&quot;`, `&squot;`, `&nbsp;` and
/// the decimal (`&#160;`) and hexadecimal (`&#x27;`) character references. Any other entity is
/// passed through unchanged.
pub fn unescape_entities(input: &str) -> (r: String)
    ensures
        r@ == unescaped(input@),
{
    let s = chars_of(input);
    let n = s.len();
    let mut out: Vec<char> = Vec::new();
    let mut pos: usize = 0;
    assert(s@.skip(0) =~= s@);
    loop
        invariant_except_break
            out@ + unescaped(s@.skip(pos as int)) == unescaped(input@),
        invariant
            pos <= s@.len(),
            n == s@.len(),
            s@ == input@,
        ensures
            out@ == unescaped(input@),
        decreases s@.len() - pos,
    {
        let ghost rest = s@.skip(pos as int);
        let ghost before = out@;
        match find_char_from(s.as_slice(), '&', pos) {
            None => {
                extend_range(&mut out, s.as_slice(), pos, n);
                proof {
                    assert(s@.subrange(pos as int, n as int) =~= rest);
                    lemma_unescaped_plain(rest);
                }
                break;
            },
            Some(i) => {
                let ghost ir = i - pos;
                assert(rest.take(ir) =~= s@.subrange(pos as int, i as int));
                extend_range(&mut out, s.as_slice(), pos, i);
                let ghost t = rest.skip(ir + 1);
                assert(t =~= s@.skip(i + 1));
                match find_char_from(s.as_slice(), ';', i + 1) {
                    None => {
                        out.push('&');
                        extend_range(&mut out, s.as_slice(), i + 1, n);
                        proof {
                            lemma_unescaped_unclosed(rest, ir);
                            assert(s@.subrange(i + 1, n as int) =~= t);
                            assert(out@ =~= before + unescaped(rest));
                        }
                        break;
                    },
                    Some(j) => {
                        let ghost jr = j - (i + 1);
                        assert(t.take(jr) =~= s@.subrange(i + 1, j as int));
                        decode_entity_exec(s.as_slice(), i + 1, j, &mut out);
                        proof {
                            lemma_unescaped_entity(rest, ir, jr);
                            assert(t.skip(jr + 1) =~= s@.skip(j + 1));
                        }
                        pos = j + 1;
                        assert(out@ + unescaped(s@.skip(pos as int)) =~= before + unescaped(rest));
                    },
                }
            },
        }
    }
    string_of(out.as_slice())
}

} // verus!
