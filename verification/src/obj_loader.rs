//! Helpers that cut a line of a Wavefront mesh file into words and resolve
//! the one-based, possibly negative, element indices of its faces.
use vstd::pervasive::cloned;
use vstd::prelude::*;
use vstd::string::*;

verus! {

/// A blank or a tab.
pub open spec fn is_space_char(c: char) -> bool {
    c == '\t' || c == ' '
}

/// Index of the first character at or after `i` that is no space; the length
/// of `s` if there is none.
pub open spec fn skip_spaces(s: Seq<char>, i: int) -> int
    decreases s.len() - i,
{
    if 0 <= i < s.len() && is_space_char(s[i]) {
        skip_spaces(s, i + 1)
    } else {
        i
    }
}

/// Index of the first space at or after `i`; the length of `s` if there is
/// none.
pub open spec fn skip_word(s: Seq<char>, i: int) -> int
    decreases s.len() - i,
{
    if 0 <= i < s.len() && !is_space_char(s[i]) {
        skip_word(s, i + 1)
    } else {
        i
    }
}

/// Number of characters at the end of `s` that are no spaces.
pub open spec fn trailing_word_len(s: Seq<char>) -> int
    decreases s.len(),
{
    if s.len() > 0 && !is_space_char(s.last()) {
        1 + trailing_word_len(s.drop_last())
    } else {
        0
    }
}

/// The first word of `s`: the run of characters that are no spaces after the
/// leading spaces.
pub open spec fn first_token_spec(s: Seq<char>) -> Seq<char> {
    let a = skip_spaces(s, 0);
    s.subrange(a, skip_word(s, a))
}

/// The first `keep` characters of `s`; all of `s` if it is shorter, nothing
/// if `keep` is negative.
pub open spec fn prefix(s: Seq<char>, keep: int) -> Seq<char> {
    if keep >= s.len() {
        s
    } else if keep <= 0 {
        Seq::empty()
    } else {
        s.subrange(0, keep)
    }
}

/// What follows the first word and the spaces after it, within the first
/// `byte_len - w` characters of `s`, where `w` is the length of the last
/// word of `s`.
pub open spec fn tail_spec(s: Seq<char>, byte_len: int) -> Seq<char> {
    let head = prefix(s, byte_len - trailing_word_len(s));
    let a = skip_spaces(head, 0);
    let b = skip_word(head, a);
    head.subrange(skip_spaces(head, b), head.len() as int)
}

/// Whether `token` stands in `s` at index `i`.
pub open spec fn matches_at(s: Seq<char>, token: Seq<char>, i: int) -> bool {
    0 <= i && i + token.len() <= s.len() && s.subrange(i, i + token.len()) == token
}

/// The pieces of `s` from the piece that starts at `start`, when the search
/// for `token` has reached index `i`: the leftmost occurrence of `token` ends
/// the piece and the search goes on behind it.
pub open spec fn split_from(s: Seq<char>, token: Seq<char>, start: int, i: int) -> Seq<Seq<char>>
    decreases s.len() - i,
{
    if token.len() == 0 || i < 0 || start < 0 || start > i {
        Seq::empty()
    } else if i + token.len() > s.len() {
        seq![s.subrange(start, s.len() as int)]
    } else if matches_at(s, token, i) {
        seq![s.subrange(start, i)] + split_from(s, token, i + token.len(), i + token.len())
    } else {
        split_from(s, token, start, i + 1)
    }
}

/// The pieces into which an empty separator cuts `s`: an empty piece, each
/// character by itself, and an empty piece.
pub open spec fn split_chars(s: Seq<char>) -> Seq<Seq<char>> {
    Seq::new(
        s.len() + 2,
        |k: int|
            if 1 <= k <= s.len() {
                s.subrange(k - 1, k)
            } else {
                Seq::empty()
            },
    )
}

/// The pieces of `s` between the occurrences of `token`, found from the left
/// and without overlap.
pub open spec fn split_spec(s: Seq<char>, token: Seq<char>) -> Seq<Seq<char>> {
    if token.len() == 0 {
        split_chars(s)
    } else {
        split_from(s, token, 0, 0)
    }
}

/// The views of a list of string slices.
pub open spec fn views(pieces: Seq<&str>) -> Seq<Seq<char>> {
    Seq::new(pieces.len(), |k: int| pieces[k]@)
}

/// Value of a decimal digit.
pub open spec fn digit_value(c: char) -> int {
    c as int - '0' as int
}

/// A decimal digit.
pub open spec fn is_digit(c: char) -> bool {
    '0' <= c && c <= '9'
}

/// Every character is a decimal digit.
pub open spec fn all_digits(s: Seq<char>) -> bool {
    forall|i: int| 0 <= i < s.len() ==> is_digit(#[trigger] s[i])
}

/// Value of a run of decimal digits.
pub open spec fn digits_value(s: Seq<char>) -> int
    decreases s.len(),
{
    if s.len() == 0 {
        0
    } else {
        digits_value(s.drop_last()) * 10 + digit_value(s.last())
    }
}

/// Whether `s` starts with a sign.
pub open spec fn has_sign(s: Seq<char>) -> bool {
    s.len() > 0 && (s[0] == '-' || s[0] == '+')
}

/// The digits of `s`: what follows the sign, if there is one.
pub open spec fn digits_of(s: Seq<char>) -> Seq<char> {
    if has_sign(s) {
        s.subrange(1, s.len() as int)
    } else {
        s
    }
}

/// The 32-bit integer that `s` spells in decimal, with an optional sign in
/// front; `None` if `s` holds anything else or the value does not fit.
pub open spec fn parse_i32_spec(s: Seq<char>) -> Option<int> {
    let digits = digits_of(s);
    if digits.len() == 0 || !all_digits(digits) {
        None
    } else {
        let v = if s[0] == '-' {
            -digits_value(digits)
        } else {
            digits_value(digits)
        };
        if i32::MIN <= v <= i32::MAX {
            Some(v)
        } else {
            None
        }
    }
}

/// Position in a list of `len` elements that the index `index` of a mesh
/// file denotes: indices count from one, negative ones back from the end.
/// `None` if `index` is no integer or denotes no element.
pub open spec fn element_position_spec(len: int, index: Seq<char>) -> Option<int> {
    match parse_i32_spec(index) {
        None => None,
        Some(v) => {
            let position = if v < 0 {
                len + v
            } else {
                v - 1
            };
            if 0 <= position < len && len <= i32::MAX {
                Some(position)
            } else {
                None
            }
        },
    }
}

/// Whether the character is a blank or a tab.
fn is_space(c: &char) -> (r: bool)
    ensures
        r == is_space_char(*c),
{
    *c == '\t' || *c == ' '
}

/// Index of the first character of `s` at or after `from` that is a space
/// (`spaces` false) or no space (`spaces` true).
pub(crate) fn scan(s: &str, from: usize, spaces: bool) -> (r: usize)
    requires
        from <= s@.len(),
    ensures
        from <= r <= s@.len(),
        spaces ==> r == skip_spaces(s@, from as int),
        !spaces ==> r == skip_word(s@, from as int),
{
    let n: usize = s.unicode_len();
    let mut i: usize = from;
    while i < n && is_space(&s.get_char(i)) == spaces
        invariant
            from <= i <= n,
            n == s@.len(),
            spaces ==> skip_spaces(s@, i as int) == skip_spaces(s@, from as int),
            !spaces ==> skip_word(s@, i as int) == skip_word(s@, from as int),
        decreases n - i,
    {
        i = i + 1;
    }
    i
}

/// The first word of `s`: what stands between the leading spaces and the
/// next space.
pub fn first_token(s: &str) -> (r: String)
    ensures
        r@ == first_token_spec(s@),
{
    let a: usize = scan(s, 0, true);
    let b: usize = scan(s, a, false);
    String::from_str(s.substring_char(a, b))
}

/// Number of characters at the end of `s` that are no spaces.
fn last_word_len(s: &str) -> (r: usize)
    ensures
        r == trailing_word_len(s@),
        r <= s@.len(),
{
    let n: usize = s.unicode_len();
    let mut i: usize = n;
    proof {
        assert(s@.subrange(0, n as int) =~= s@);
    }
    while i > 0 && !is_space(&s.get_char(i - 1))
        invariant
            0 <= i <= n,
            n == s@.len(),
            trailing_word_len(s@) == trailing_word_len(s@.subrange(0, i as int)) + (n - i),
        decreases i,
    {
        proof {
            let cur = s@.subrange(0, i as int);
            assert(cur.last() == s@[i - 1]);
            assert(cur.drop_last() =~= s@.subrange(0, i - 1));
        }
        i = i - 1;
    }
    proof {
        let cur = s@.subrange(0, i as int);
        if i > 0 {
            assert(cur.last() == s@[i - 1]);
        }
    }
    n - i
}

/// The rest of the line behind its first word. The line's last word is cut
/// off before: of the line, only as many characters are read as it has
/// bytes less the length of its last word.
pub fn tail(s: &str) -> (r: String)
    ensures
        r@ == tail_spec(s@, s.len() as int),
{
    let last: usize = last_word_len(s);
    let chars: usize = s.unicode_len();
    let bytes: usize = s.len();
    let keep: usize = if bytes >= last {
        if bytes - last >= chars {
            chars
        } else {
            bytes - last
        }
    } else {
        0
    };
    let head: &str = s.substring_char(0, keep);
    proof {
        assert(head@ =~= prefix(s@, bytes - last));
    }
    let a: usize = scan(head, 0, true);
    let b: usize = scan(head, a, false);
    let c: usize = scan(head, b, true);
    String::from_str(head.substring_char(c, keep))
}

/// Whether `token` stands in `s` at index `i`.
fn token_at(s: &str, token: &str, i: usize, n: usize, m: usize) -> (r: bool)
    requires
        n == s@.len(),
        m == token@.len(),
        i + m <= n,
    ensures
        r == matches_at(s@, token@, i as int),
{
    let mut k: usize = 0;
    while k < m
        invariant
            0 <= k <= m,
            n == s@.len(),
            m == token@.len(),
            i + m <= n,
            forall|j: int| 0 <= j < k ==> s@[i + j] == token@[j],
        decreases m - k,
    {
        if s.get_char(i + k) != token.get_char(k) {
            proof {
                assert(s@.subrange(i as int, i + m)[k as int] != token@[k as int]);
            }
            return false;
        }
        k = k + 1;
    }
    proof {
        assert(s@.subrange(i as int, i + m) =~= token@);
    }
    true
}

/// The pieces into which an empty separator cuts `s`.
fn split_every_char<'a>(s: &'a str) -> (r: Vec<&'a str>)
    ensures
        views(r@) == split_chars(s@),
{
    let n: usize = s.unicode_len();
    let mut pieces: Vec<&'a str> = Vec::new();
    pieces.push(s.substring_char(0, 0));
    let mut k: usize = 0;
    while k < n
        invariant
            0 <= k <= n,
            n == s@.len(),
            pieces@.len() == k + 1,
            forall|j: int| 0 <= j <= k ==> (#[trigger] pieces@[j])@ == split_chars(s@)[j],
        decreases n - k,
    {
        pieces.push(s.substring_char(k, k + 1));
        k = k + 1;
    }
    pieces.push(s.substring_char(n, n));
    proof {
        assert forall|j: int| 0 <= j < pieces@.len() implies views(pieces@)[j] == split_chars(
            s@,
        )[j] by {
            if j <= n {
                assert(pieces@[j]@ == split_chars(s@)[j]);
            } else {
                assert(pieces@[j]@ =~= Seq::<char>::empty());
            }
        }
        assert(views(pieces@) =~= split_chars(s@));
    }
    pieces
}

/// The pieces of `s` between the occurrences of `token`, which are found
/// from the left and do not overlap. An empty `token` cuts before and behind
/// every character.
pub fn split<'a>(s: &'a str, token: &str) -> (r: Vec<&'a str>)
    ensures
        views(r@) == split_spec(s@, token@),
{
    let n: usize = s.unicode_len();
    let m: usize = token.unicode_len();
    if m == 0 {
        return split_every_char(s);
    }
    let mut pieces: Vec<&'a str> = Vec::new();
    let mut start: usize = 0;
    let mut i: usize = 0;
    while m <= n && i <= n - m
        invariant
            0 <= start <= i <= n,
            n == s@.len(),
            m == token@.len(),
            m > 0,
            split_spec(s@, token@) == views(pieces@) + split_from(
                s@,
                token@,
                start as int,
                i as int,
            ),
        decreases n - i,
    {
        if token_at(s, token, i, n, m) {
            let ghost before = views(pieces@);
            pieces.push(s.substring_char(start, i));
            proof {
                assert(views(pieces@) =~= before + seq![s@.subrange(start as int, i as int)]);
                assert(split_spec(s@, token@) =~= views(pieces@) + split_from(
                    s@,
                    token@,
                    i + m,
                    i + m,
                ));
            }
            i = i + m;
            start = i;
        } else {
            i = i + 1;
        }
    }
    let ghost before = views(pieces@);
    pieces.push(s.substring_char(start, n));
    proof {
        assert(views(pieces@) =~= before + seq![s@.subrange(start as int, n as int)]);
    }
    pieces
}

/// A run of digits spells at least what any of its prefixes spells.
proof fn lemma_digits_grow(s: Seq<char>, k: int)
    requires
        all_digits(s),
        0 <= k <= s.len(),
    ensures
        0 <= digits_value(s.subrange(0, k)) <= digits_value(s),
    decreases s.len() - k,
{
    if k == s.len() {
        assert(s.subrange(0, k) =~= s);
        lemma_digits_nonnegative(s);
    } else {
        lemma_digits_grow(s, k + 1);
        let longer = s.subrange(0, k + 1);
        assert(longer.drop_last() =~= s.subrange(0, k));
        assert(longer.last() == s[k]);
        assert(is_digit(s[k]));
        lemma_digits_nonnegative(s.subrange(0, k));
    }
}

/// A run of digits spells no negative number.
proof fn lemma_digits_nonnegative(s: Seq<char>)
    requires
        all_digits(s),
    ensures
        digits_value(s) >= 0,
    decreases s.len(),
{
    if s.len() > 0 {
        assert(is_digit(s.last()));
        lemma_digits_nonnegative(s.drop_last());
    }
}

/// The 32-bit integer that `s` spells in decimal, with an optional sign in
/// front.
pub fn parse_i32(s: &str) -> (r: Option<i32>)
    ensures
        match r {
            Some(v) => parse_i32_spec(s@) == Some(v as int),
            None => parse_i32_spec(s@) is None,
        },
{
    let n: usize = s.unicode_len();
    if n == 0 {
        return None;
    }
    let first: char = s.get_char(0);
    let negative: bool = first == '-';
    let from: usize = if first == '-' || first == '+' {
        1
    } else {
        0
    };
    if from == n {
        return None;
    }
    let ghost digits = s@.subrange(from as int, n as int);
    proof {
        assert(digits_of(s@) =~= digits);
        assert(digits.subrange(0, 0) =~= Seq::<char>::empty());
    }
    let mut value: i64 = 0;
    let mut i: usize = from;
    while i < n
        invariant
            from <= i <= n,
            n == s@.len(),
            digits == s@.subrange(from as int, n as int),
            digits == digits_of(s@),
            negative == (s@[0] == '-'),
            all_digits(digits.subrange(0, i - from)),
            value == digits_value(digits.subrange(0, i - from)),
            0 <= value <= 0x8000_0000,
        decreases n - i,
    {
        let c: char = s.get_char(i);
        let ghost seen = digits.subrange(0, i - from);
        let ghost longer = digits.subrange(0, i - from + 1);
        proof {
            assert(longer.drop_last() =~= seen);
            assert(longer.last() == c);
        }
        if !(c >= '0' && c <= '9') {
            proof {
                assert(!is_digit(digits[i - from]));
            }
            return None;
        }
        let d: i64 = (c as u32 - '0' as u32) as i64;
        proof {
            assert forall|j: int| 0 <= j < longer.len() implies is_digit(#[trigger] longer[j]) by {
                if j < seen.len() {
                    assert(longer[j] == seen[j]);
                }
            }
        }
        value = value * 10 + d;
        i = i + 1;
        if value > 0x8000_0000 {
            proof {
                if all_digits(digits) {
                    lemma_digits_grow(digits, i - from);
                }
            }
            return None;
        }
    }
    proof {
        assert(digits.subrange(0, n - from) =~= digits);
    }
    if negative {
        Some((-value) as i32)
    } else if value > 0x7fff_ffff {
        None
    } else {
        Some(value as i32)
    }
}

/// Position in a list of `len` elements that `index` denotes.
pub fn element_position(len: usize, index: &str) -> (r: Option<usize>)
    ensures
        match r {
            Some(p) => element_position_spec(len as int, index@) == Some(p as int),
            None => element_position_spec(len as int, index@) is None,
        },
{
    match parse_i32(index) {
        None => None,
        Some(v) => {
            if len > 0x7fff_ffff {
                None
            } else {
                let position: i64 = if v < 0 {
                    len as i64 + v as i64
                } else {
                    v as i64 - 1
                };
                if 0 <= position && position < len as i64 {
                    Some(position as usize)
                } else {
                    None
                }
            }
        },
    }
}

/// The element that `index` denotes, copied.
pub fn get_element<T: Clone>(elements: &Vec<T>, index: &str) -> (r: T)
    requires
        element_position_spec(elements@.len() as int, index@) is Some,
    ensures
        cloned(elements@[element_position_spec(elements@.len() as int, index@).unwrap()], r),
{
    let position: Option<usize> = element_position(elements.len(), index);
    elements[position.unwrap()].clone()
}

} // verus!
