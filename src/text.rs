//! Splitting, joining and de-duplicating the list-valued texts of a configuration.

use vstd::prelude::*;

use crate::addr::texts;
use crate::resolve::{eq_ignore_ascii_case, same_ignoring_ascii_case};

verus! {

/// The characters that `char::is_whitespace` accepts (Unicode White_Space).
pub open spec fn is_space(c: char) -> bool {
    let u = c as u32;
    (0x9 <= u && u <= 0xd) || u == 0x20 || u == 0x85 || u == 0xa0 || u == 0x1680 || (0x2000 <= u
        && u <= 0x200a) || u == 0x2028 || u == 0x2029 || u == 0x202f || u == 0x205f || u == 0x3000
}

/// Whether `c` is white space.
pub fn space(c: char) -> (r: bool)
    ensures
        r == is_space(c),
{
    let u = c as u32;
    (0x9 <= u && u <= 0xd) || u == 0x20 || u == 0x85 || u == 0xa0 || u == 0x1680 || (0x2000 <= u
        && u <= 0x200a) || u == 0x2028 || u == 0x2029 || u == 0x202f || u == 0x205f || u == 0x3000
}

/// Which characters separate list items.
#[derive(Clone, Copy, Debug, PartialEq, Eq, Structural)]
pub enum Delims {
    /// Commas only.
    Comma,
    /// Commas and white space.
    CommaOrSpace,
    /// Commas, semicolons and white space.
    CommaSemicolonOrSpace,
}

/// `c` separates list items under `d`.
pub open spec fn is_delim(d: Delims, c: char) -> bool {
    match d {
        Delims::Comma => c == ',',
        Delims::CommaOrSpace => c == ',' || is_space(c),
        Delims::CommaSemicolonOrSpace => c == ',' || c == ';' || is_space(c),
    }
}

fn delim(d: Delims, c: char) -> (r: bool)
    ensures
        r == is_delim(d, c),
{
    match d {
        Delims::Comma => c == ',',
        Delims::CommaOrSpace => c == ',' || space(c),
        Delims::CommaSemicolonOrSpace => c == ',' || c == ';' || space(c),
    }
}

/// Relies on `str::chars` collected into a `Vec`: the characters of the text, in order.
#[verifier::external_body]
pub(crate) fn chars_of(s: &str) -> (r: Vec<char>)
    ensures
        r@ == s@,
{
    s.chars().collect()
}

/// Relies on collecting characters into a `String`: the text of exactly those characters.
#[verifier::external_body]
fn string_of(cs: &Vec<char>) -> (r: String)
    ensures
        r@ == cs@,
{
    cs.iter().collect()
}

/// Reading `s` left to right: the items completed so far and the item being read.
pub open spec fn scan(s: Seq<char>, delims: Delims) -> (Seq<Seq<char>>, Seq<char>)
    decreases s.len(),
{
    if s.len() == 0 {
        (Seq::empty(), Seq::empty())
    } else {
        let before = scan(s.drop_last(), delims);
        if is_delim(delims, s.last()) {
            if before.1.len() > 0 {
                (before.0.push(before.1), Seq::empty())
            } else {
                (before.0, Seq::empty())
            }
        } else {
            (before.0, before.1.push(s.last()))
        }
    }
}

/// The non-empty items of `s` between separators, in order.
pub open spec fn tokens(s: Seq<char>, delims: Delims) -> Seq<Seq<char>> {
    let end = scan(s, delims);
    if end.1.len() > 0 {
        end.0.push(end.1)
    } else {
        end.0
    }
}

/// The items joined with `sep` between neighbours.
pub open spec fn join(t: Seq<Seq<char>>, sep: Seq<char>) -> Seq<char>
    decreases t.len(),
{
    if t.len() == 0 {
        Seq::empty()
    } else if t.len() == 1 {
        t[0]
    } else {
        join(t.drop_last(), sep) + sep + t.last()
    }
}

/// The non-empty items of `s`, each kept at its first occurrence only.
pub open spec fn distinct_nonempty(s: Seq<Seq<char>>) -> Seq<Seq<char>>
    decreases s.len(),
{
    if s.len() == 0 {
        Seq::empty()
    } else {
        let d = distinct_nonempty(s.drop_last());
        if s.last().len() == 0 || d.contains(s.last()) {
            d
        } else {
            d.push(s.last())
        }
    }
}

/// Splits `s` into its non-empty items (see [`tokens`]).
pub fn split_items(s: &str, delims: Delims) -> (r: Vec<String>)
    ensures
        texts(r@) == tokens(s@, delims),
{
    let cs = chars_of(s);
    let mut done: Vec<String> = Vec::new();
    let mut cur: Vec<char> = Vec::new();
    let mut i: usize = 0;
    while i < cs.len()
        invariant
            i <= cs@.len(),
            cs@ == s@,
            texts(done@) == scan(cs@.take(i as int), delims).0,
            cur@ == scan(cs@.take(i as int), delims).1,
        decreases cs@.len() - i,
    {
        let c = cs[i];
        proof {
            assert(cs@.take(i + 1).drop_last() =~= cs@.take(i as int));
            assert(cs@.take(i + 1).last() == c);
        }
        if delim(delims, c) {
            if cur.len() > 0 {
                let item = string_of(&cur);
                done.push(item);
                proof {
                    assert(texts(done@) =~= scan(cs@.take(i as int), delims).0.push(cur@));
                }
            }
            cur = Vec::new();
        } else {
            cur.push(c);
        }
        i = i + 1;
    }
    assert(cs@.take(cs@.len() as int) =~= s@);
    if cur.len() > 0 {
        let item = string_of(&cur);
        done.push(item);
        assert(texts(done@) =~= tokens(s@, delims));
    }
    done
}

/// Joins the items with `sep` between neighbours.
pub fn join_with(parts: &Vec<String>, sep: &str) -> (r: String)
    ensures
        r@ == join(texts(parts@), sep@),
{
    let mut r = String::new();
    let mut i: usize = 0;
    while i < parts.len()
        invariant
            i <= parts@.len(),
            r@ == join(texts(parts@).take(i as int), sep@),
        decreases parts@.len() - i,
    {
        proof {
            let t = texts(parts@).take(i + 1);
            assert(t.drop_last() =~= texts(parts@).take(i as int));
            assert(t.last() == parts@[i as int]@);
            if i == 0 {
                assert(t.len() == 1);
            }
        }
        if i > 0 {
            r.append(sep);
        }
        r.append(parts[i].as_str());
        i = i + 1;
    }
    assert(texts(parts@).take(parts@.len() as int) =~= texts(parts@));
    r
}

/// The non-empty values, each at its first occurrence only.
pub fn dedupe_preserve_order(values: &[String]) -> (r: Vec<String>)
    ensures
        texts(r@) == distinct_nonempty(texts(values@)),
{
    let mut out: Vec<String> = Vec::new();
    let mut i: usize = 0;
    while i < values.len()
        invariant
            i <= values@.len(),
            texts(out@) == distinct_nonempty(texts(values@).take(i as int)),
        decreases values@.len() - i,
    {
        let v = &values[i];
        let ghost t = texts(values@).take(i + 1);
        proof {
            assert(t.drop_last() =~= texts(values@).take(i as int));
            assert(t.last() == v@);
        }
        let mut seen = false;
        let mut j: usize = 0;
        while j < out.len()
            invariant
                j <= out@.len(),
                seen <==> exists|k: int| 0 <= k < j && out@[k]@ == v@,
            decreases out@.len() - j,
        {
            if out[j] == *v {
                seen = true;
            }
            j = j + 1;
        }
        proof {
            let d = texts(out@);
            if seen {
                let k = choose|k: int| 0 <= k < out@.len() && out@[k]@ == v@;
                assert(d[k] == v@);
            } else {
                assert forall|k: int| 0 <= k < d.len() implies d[k] != v@ by {
                    assert(d[k] == out@[k]@);
                }
            }
        }
        if !seen && !v.as_str().is_empty() {
            out.push(v.clone());
            proof {
                assert(texts(out@) =~= distinct_nonempty(texts(values@).take(i as int)).push(v@));
            }
        }
        i = i + 1;
    }
    assert(texts(values@).take(values@.len() as int) =~= texts(values@));
    out
}

/// The non-empty values, de-duplicated in order and joined with commas; `None` when none is
/// left.
pub fn join_list(values: &[String]) -> (r: Option<String>)
    ensures
        r is None <==> distinct_nonempty(texts(values@)).len() == 0,
        r is Some ==> r.unwrap()@ == join(distinct_nonempty(texts(values@)), seq![',']),
{
    let filtered = dedupe_preserve_order(values);
    if filtered.len() == 0 {
        None
    } else {
        proof {
            reveal_strlit(",");
            assert(","@ =~= seq![',']);
        }
        Some(join_with(&filtered, ","))
    }
}

/// A domain-search list as comma-separated items; `None` when it holds no item.
pub fn domain_search_csv(value: &str) -> (r: Option<String>)
    ensures
        r is None <==> tokens(value@, Delims::CommaSemicolonOrSpace).len() == 0,
        r is Some ==> r.unwrap()@ == join(tokens(value@, Delims::CommaSemicolonOrSpace), seq![',']),
{
    let parts = split_items(value, Delims::CommaSemicolonOrSpace);
    if parts.len() == 0 {
        None
    } else {
        proof {
            reveal_strlit(",");
            assert(","@ =~= seq![',']);
        }
        Some(join_with(&parts, ","))
    }
}

/// A domain-search list with each item kept once, at its first occurrence, and the items
/// separated by single spaces.
pub fn normalize_domain_search(raw: &str) -> (r: String)
    ensures
        r@ == join(distinct_nonempty(tokens(raw@, Delims::CommaSemicolonOrSpace)), seq![' ']),
{
    let items = split_items(raw, Delims::CommaSemicolonOrSpace);
    let parts = dedupe_preserve_order(items.as_slice());
    proof {
        reveal_strlit(" ");
        assert(" "@ =~= seq![' ']);
    }
    join_with(&parts, " ")
}

/// The first item of a domain-search list split at commas and white space; empty when none.
pub fn first_domain(domain_search: &str) -> (r: String)
    ensures
        tokens(domain_search@, Delims::CommaOrSpace).len() == 0 ==> r@ == Seq::<char>::empty(),
        tokens(domain_search@, Delims::CommaOrSpace).len() > 0 ==> r@ == tokens(domain_search@, Delims::CommaOrSpace)[0],
{
    let parts = split_items(domain_search, Delims::CommaOrSpace);
    if parts.len() == 0 {
        String::new()
    } else {
        assert(texts(parts@)[0] == parts@[0]@);
        parts[0].clone()
    }
}


/// A copy of an optional text.
pub fn copy_text(o: &Option<String>) -> (r: Option<String>)
    ensures
        r == *o,
{
    match o {
        Some(s) => Some(s.clone()),
        None => None,
    }
}


/// The decimal digit for `d < 10`.
pub open spec fn digit(d: nat) -> char {
    ((d + 48) as u32) as char
}

/// The decimal text of `n`, without leading zeros.
pub open spec fn decimal(n: nat) -> Seq<char>
    decreases n,
{
    if n < 10 {
        seq![digit(n)]
    } else {
        decimal(n / 10).push(digit(n % 10))
    }
}

/// The dotted-quad text of a 32-bit address value, as std writes an `Ipv4Addr`.
pub open spec fn dotted(a: nat) -> Seq<char> {
    decimal(a / 16777216) + seq!['.'] + decimal((a / 65536) % 256) + seq!['.'] + decimal((a / 256) % 256)
        + seq!['.'] + decimal(a % 256)
}

/// The value of a text of decimal digits.
pub open spec fn digits_value(t: Seq<char>) -> nat
    decreases t.len(),
{
    if t.len() == 0 {
        0
    } else {
        digits_value(t.drop_last()) * 10 + ((t.last() as u32) - 48) as nat
    }
}

/// The text is made of ASCII decimal digits only.
pub open spec fn all_digits(t: Seq<char>) -> bool {
    forall|i: int| 0 <= i < t.len() ==> '0' <= #[trigger] t[i] && t[i] <= '9'
}

/// What std's `FromStr` for `u8` reads: an optional `+`, then one or more decimal digits whose
/// value is at most 255.
pub open spec fn u8_of(s: Seq<char>) -> Option<u8> {
    let t = if s.len() > 0 && s[0] == '+' {
        s.drop_first()
    } else {
        s
    };
    if t.len() > 0 && all_digits(t) && digits_value(t) <= 255 {
        Some(digits_value(t) as u8)
    } else {
        None
    }
}

/// The decimal text of a byte.
pub fn u8_text(n: u8) -> (r: String)
    ensures
        r@ == decimal(n as nat),
{
    let mut cs: Vec<char> = Vec::new();
    if n >= 100 {
        cs.push(((n / 100) + 48) as char);
    }
    if n >= 10 {
        cs.push((((n / 10) % 10) + 48) as char);
    }
    cs.push(((n % 10) + 48) as char);
    proof {
        let a = n as nat;
        if a >= 100 {
            assert(decimal(a / 10 / 10) == seq![digit(a / 100)]);
            assert(decimal(a / 10) == seq![digit(a / 100), digit((a / 10) % 10)]);
        } else if a >= 10 {
            assert(decimal(a / 10) == seq![digit(a / 10)]);
        }
        assert(cs@ =~= decimal(a));
    }
    string_of(&cs)
}


/// The XML escape of one character.
pub open spec fn escape_char(c: char) -> Seq<char> {
    if c == '&' {
        seq!['&', 'a', 'm', 'p', ';']
    } else if c == '<' {
        seq!['&', 'l', 't', ';']
    } else if c == '>' {
        seq!['&', 'g', 't', ';']
    } else if c == '"' {
        seq!['&', 'q', 'u', 'o', 't', ';']
    } else if c == '\'' {
        seq!['&', 'a', 'p', 'o', 's', ';']
    } else {
        seq![c]
    }
}

/// A text with the five XML special characters escaped.
pub open spec fn escaped(s: Seq<char>) -> Seq<char>
    decreases s.len(),
{
    if s.len() == 0 {
        Seq::empty()
    } else {
        escaped(s.drop_last()) + escape_char(s.last())
    }
}

/// Escapes the five XML special characters of a text.
pub fn escape_xml(value: &str) -> (r: String)
    ensures
        r@ == escaped(value@),
{
    let cs = chars_of(value);
    let mut out: Vec<char> = Vec::new();
    let mut i: usize = 0;
    while i < cs.len()
        invariant
            i <= cs@.len(),
            cs@ == value@,
            out@ == escaped(cs@.take(i as int)),
        decreases cs@.len() - i,
    {
        let c = cs[i];
        proof {
            assert(cs@.take(i + 1).drop_last() =~= cs@.take(i as int));
            assert(cs@.take(i + 1).last() == c);
        }
        let ghost before = out@;
        if c == '&' {
            out.push('&');
            out.push('a');
            out.push('m');
            out.push('p');
            out.push(';');
        } else if c == '<' {
            out.push('&');
            out.push('l');
            out.push('t');
            out.push(';');
        } else if c == '>' {
            out.push('&');
            out.push('g');
            out.push('t');
            out.push(';');
        } else if c == '"' {
            out.push('&');
            out.push('q');
            out.push('u');
            out.push('o');
            out.push('t');
            out.push(';');
        } else if c == '\'' {
            out.push('&');
            out.push('a');
            out.push('p');
            out.push('o');
            out.push('s');
            out.push(';');
        } else {
            out.push(c);
        }
        assert(out@ =~= before + escape_char(c));
        i = i + 1;
    }
    assert(cs@.take(cs@.len() as int) =~= value@);
    string_of(&out)
}

/// The first eight characters of an identifier, or all of it when it is shorter.
pub fn short_uuid(uuid: &str) -> (r: String)
    ensures
        uuid@.len() >= 8 ==> r@ == uuid@.take(8),
        uuid@.len() < 8 ==> r@ == uuid@,
{
    let cs = chars_of(uuid);
    if cs.len() < 8 {
        return uuid.to_string();
    }
    let mut head: Vec<char> = Vec::new();
    let mut i: usize = 0;
    while i < 8
        invariant
            i <= 8,
            cs@.len() >= 8,
            head@ == cs@.take(i as int),
        decreases 8 - i,
    {
        head.push(cs[i]);
        assert(head@ =~= cs@.take(i + 1));
        i = i + 1;
    }
    string_of(&head)
}

/// The part of a name after its last `:`, when it has one.
pub open spec fn local_part(raw: Seq<char>) -> Option<Seq<char>> {
    if exists|k: int| 0 <= k < raw.len() && raw[k] == ':' {
        let k = choose|k: int|
            0 <= k < raw.len() && raw[k] == ':' && forall|j: int| k < j < raw.len() ==> raw[j] != ':';
        Some(raw.subrange(k + 1, raw.len() as int))
    } else {
        None
    }
}

/// An element name matches a wanted name when the two are equal ignoring ASCII case, or when
/// the part after its namespace prefix is.
pub open spec fn name_match(raw: Seq<char>, target: Seq<char>) -> bool {
    same_ignoring_ascii_case(raw, target) || match local_part(raw) {
        Some(p) => same_ignoring_ascii_case(p, target),
        None => false,
    }
}

/// Whether element name `raw_name` matches `target` (see [`name_match`]).
pub fn name_matches(raw_name: &str, target: &str) -> (r: bool)
    ensures
        r == name_match(raw_name@, target@),
{
    if eq_ignore_ascii_case(raw_name, target) {
        return true;
    }
    let cs = chars_of(raw_name);
    let mut i: usize = cs.len();
    while i > 0
        invariant
            i <= cs@.len(),
            cs@ == raw_name@,
            !same_ignoring_ascii_case(raw_name@, target@),
            forall|j: int| i <= j < cs@.len() ==> cs@[j] != ':',
        decreases i,
    {
        if cs[i - 1] == ':' {
            let k = i - 1;
            let mut tail: Vec<char> = Vec::new();
            let mut j: usize = i;
            while j < cs.len()
                invariant
                    1 <= i <= j <= cs@.len(),
                    k == i - 1,
                    cs@ == raw_name@,
                    !same_ignoring_ascii_case(raw_name@, target@),
                    cs@[k as int] == ':',
                    forall|x: int| i <= x < cs@.len() ==> cs@[x] != ':',
                    tail@ == cs@.subrange(i as int, j as int),
                decreases cs@.len() - j,
            {
                tail.push(cs[j]);
                assert(tail@ =~= cs@.subrange(i as int, j + 1));
                j = j + 1;
            }
            let suffix = string_of(&tail);
            proof {
                let c = choose|c: int|
                    0 <= c < raw_name@.len() && raw_name@[c] == ':' && forall|x: int|
                        c < x < raw_name@.len() ==> raw_name@[x] != ':';
                assert(raw_name@[k as int] == ':');
                if c < k {
                    assert(raw_name@[k as int] != ':');
                } else if c > k {
                    assert(cs@[c] != ':');
                }
                assert(local_part(raw_name@) == Some(cs@.subrange(i as int, cs@.len() as int)));
            }
            return eq_ignore_ascii_case(suffix.as_str(), target);
        }
        i = i - 1;
    }
    proof {
        assert(!exists|k: int| 0 <= k < raw_name@.len() && raw_name@[k] == ':') by {
            if exists|k: int| 0 <= k < raw_name@.len() && raw_name@[k] == ':' {
                let k = choose|k: int| 0 <= k < raw_name@.len() && raw_name@[k] == ':';
                assert(cs@[k] != ':');
            }
        }
    }
    false
}

} // verus!
