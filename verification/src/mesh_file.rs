//! Reads the text of a Wavefront mesh file: the positions of its vertices
//! and the faces between them, as the vertex and index lists from which a
//! mesh of triangles is built.
use crate::fixed::{saturate, Fixed, RAW_MAX, SCALE};
use crate::obj_loader::{
    all_digits, digits_value, element_position, element_position_spec, is_digit, is_space_char,
    scan, skip_spaces, skip_word, views,
};
use crate::vector::{Vector3, V3};
use vstd::prelude::*;
use vstd::string::*;

verus! {

/// Largest number of digits that a decimal number may have.
pub const MAX_DIGITS: usize = 28;

/// A word reaches beyond the character at which it starts.
pub proof fn lemma_skip_word_advances(s: Seq<char>, i: int)
    requires
        0 <= i,
    ensures
        i <= skip_word(s, i) <= s.len() || i > s.len(),
        i < s.len() && !is_space_char(s[i]) ==> i < skip_word(s, i),
    decreases s.len() - i,
{
    if i < s.len() && !is_space_char(s[i]) {
        lemma_skip_word_advances(s, i + 1);
    }
}

/// The words of `s` from index `i` on: the runs of characters that are no
/// spaces.
pub open spec fn words_from(s: Seq<char>, i: int) -> Seq<Seq<char>>
    decreases s.len() - i,
{
    if i < 0 || i >= s.len() {
        Seq::empty()
    } else if is_space_char(s[i]) {
        words_from(s, i + 1)
    } else {
        proof {
            lemma_skip_word_advances(s, i);
        }
        seq![s.subrange(i, skip_word(s, i))] + words_from(s, skip_word(s, i))
    }
}

/// Index of the first `c` in `s` at or after `i`; the length of `s` if
/// there is none.
pub open spec fn find_char(s: Seq<char>, c: char, i: int) -> int
    decreases s.len() - i,
{
    if 0 <= i < s.len() && s[i] != c {
        find_char(s, c, i + 1)
    } else {
        i
    }
}

/// Ten to the power `k`.
pub open spec fn power_of_ten(k: nat) -> nat
    decreases k,
{
    if k == 0 {
        1
    } else {
        10 * power_of_ten((k - 1) as nat)
    }
}

/// What follows the sign of a number, if it has one.
pub open spec fn unsigned_part(s: Seq<char>) -> Seq<char> {
    if s.len() > 0 && (s[0] == '-' || s[0] == '+') {
        s.subrange(1, s.len() as int)
    } else {
        s
    }
}

/// The digits before the point of an unsigned decimal number.
pub open spec fn whole_digits(body: Seq<char>) -> Seq<char> {
    body.subrange(0, find_char(body, '.', 0))
}

/// The digits behind the point of an unsigned decimal number; none if it
/// has no point.
pub open spec fn fraction_digits(body: Seq<char>) -> Seq<char> {
    let dot = find_char(body, '.', 0);
    if dot < body.len() {
        body.subrange(dot + 1, body.len() as int)
    } else {
        Seq::empty()
    }
}

/// The fixed-point number that `s` spells in decimal: an optional sign,
/// digits, and optionally a point and more digits, with at least one and at
/// most `MAX_DIGITS` digits in all. The value is rounded toward zero and
/// saturated. `None` if `s` spells no such number.
pub open spec fn parse_decimal_spec(s: Seq<char>) -> Option<int> {
    let body = unsigned_part(s);
    let whole = whole_digits(body);
    let fraction = fraction_digits(body);
    let digits = whole + fraction;
    if !all_digits(whole) || !all_digits(fraction) || digits.len() == 0 || digits.len()
        > MAX_DIGITS {
        None
    } else {
        let magnitude = (digits_value(digits) * SCALE) / (power_of_ten(fraction.len()) as int);
        if s[0] == '-' {
            Some(saturate(-magnitude))
        } else {
            Some(saturate(magnitude))
        }
    }
}

/// The part of a face's corner that names the position: what stands before
/// the first slash.
pub open spec fn position_part(corner: Seq<char>) -> Seq<char> {
    corner.subrange(0, find_char(corner, '/', 0))
}

/// The indices as integers.
pub open spec fn as_ints(s: Seq<usize>) -> Seq<int> {
    s.map_values(|i: usize| i as int)
}

/// The models of the vectors.
pub open spec fn as_models(s: Seq<Vector3>) -> Seq<V3> {
    s.map_values(|v: Vector3| v@)
}

/// Mathematical model of a [`Mesh`].
pub struct MeshModel {
    pub vertices: Seq<V3>,
    pub indices: Seq<int>,
}

/// The three coordinates that the words behind the keyword of a vertex line
/// spell; `None` unless there are exactly three and each is a number.
pub open spec fn vertex_of(words: Seq<Seq<char>>) -> Option<V3> {
    if words.len() != 4 {
        None
    } else {
        match (
            parse_decimal_spec(words[1]),
            parse_decimal_spec(words[2]),
            parse_decimal_spec(words[3]),
        ) {
            (Some(x), Some(y), Some(z)) => Some(V3 { x, y, z }),
            _ => None,
        }
    }
}

/// The positions that the corners `words[from]`, `words[from + 1]`, ... of a
/// face name among `count` vertices; `None` if one of them names none.
pub open spec fn corners_from(words: Seq<Seq<char>>, count: int, from: int) -> Option<Seq<int>>
    decreases words.len() - from,
{
    if from < 0 || from >= words.len() {
        Some(Seq::empty())
    } else {
        match (
            element_position_spec(count, position_part(words[from])),
            corners_from(words, count, from + 1),
        ) {
            (Some(p), Some(rest)) => Some(seq![p] + rest),
            _ => None,
        }
    }
}

/// The triangles of a fan around the first corner, from the triangle with
/// the corners `0`, `k` and `k + 1` on.
pub open spec fn fan_from(corners: Seq<int>, k: int) -> Seq<int>
    decreases corners.len() - k,
{
    if k < 1 || k + 1 >= corners.len() {
        Seq::empty()
    } else {
        seq![corners[0], corners[k], corners[k + 1]] + fan_from(corners, k + 1)
    }
}

/// The indices of the triangles into which a face line is cut; `None`
/// unless the line names three or more corners among the vertices read so
/// far.
pub open spec fn face_of(words: Seq<Seq<char>>, count: int) -> Option<Seq<int>> {
    match corners_from(words, count, 1) {
        Some(corners) => if corners.len() >= 3 {
            Some(fan_from(corners, 1))
        } else {
            None
        },
        None => None,
    }
}

/// Whether lines that start with `word` are passed over: texture
/// coordinates, normals, names of objects and groups, smoothing, and
/// materials.
pub open spec fn passed_over(word: Seq<char>) -> bool {
    word == "vt"@ || word == "vn"@ || word == "o"@ || word == "g"@ || word == "s"@ || word
        == "usemtl"@ || word == "mtllib"@
}

/// The mesh after one more line. Empty lines and comments change nothing;
/// a vertex line adds a vertex, a face line the indices of its triangles;
/// any other line is refused.
pub open spec fn after_line(mesh: MeshModel, line: Seq<char>) -> Option<MeshModel> {
    let words = words_from(line, 0);
    if words.len() == 0 || words[0][0] == '#' {
        Some(mesh)
    } else if words[0] == "v"@ {
        match vertex_of(words) {
            Some(v) => Some(MeshModel { vertices: mesh.vertices.push(v), indices: mesh.indices }),
            None => None,
        }
    } else if words[0] == "f"@ {
        match face_of(words, mesh.vertices.len() as int) {
            Some(triangles) => Some(
                MeshModel { vertices: mesh.vertices, indices: mesh.indices + triangles },
            ),
            None => None,
        }
    } else if passed_over(words[0]) {
        Some(mesh)
    } else {
        None
    }
}

/// The mesh after the first `n` lines, or the index of the first line that
/// is refused.
pub open spec fn after_lines(lines: Seq<String>, n: int) -> Result<MeshModel, int>
    decreases n,
{
    if n <= 0 {
        Ok(MeshModel { vertices: Seq::empty(), indices: Seq::empty() })
    } else {
        match after_lines(lines, n - 1) {
            Err(at) => Err(at),
            Ok(mesh) => match after_line(mesh, lines[n - 1]@) {
                Some(next) => Ok(next),
                None => Err(n - 1),
            },
        }
    }
}

/// The vertices and faces of a file: face `f` has the corners
/// `indices[3 f]`, `indices[3 f + 1]` and `indices[3 f + 2]` of `vertices`.
#[derive(Debug)]
pub struct Mesh {
    pub vertices: Vec<Vector3>,
    pub indices: Vec<usize>,
}

impl View for Mesh {
    type V = MeshModel;

    open spec fn view(&self) -> MeshModel {
        MeshModel { vertices: as_models(self.vertices@), indices: as_ints(self.indices@) }
    }
}

impl Mesh {
    /// The mesh with the given vertices and faces.
    pub fn new(vertices: Vec<Vector3>, indices: Vec<usize>) -> (r: Mesh)
        ensures
            r.vertices == vertices,
            r.indices == indices,
    {
        Mesh { vertices, indices }
    }
}

/// A line of a mesh file that cannot be read.
#[derive(Clone, Copy, Debug, PartialEq, Eq, Structural)]
pub struct MeshFileError {
    /// Index of the line, counted from zero.
    pub line: usize,
}

/// The words of a line.
pub fn words<'a>(s: &'a str) -> (r: Vec<&'a str>)
    ensures
        views(r@) == words_from(s@, 0),
{
    let n: usize = s.unicode_len();
    let mut found: Vec<&'a str> = Vec::new();
    let mut i: usize = scan(s, 0, true);
    proof {
        lemma_words_skip_spaces(s@, 0);
        lemma_skip_spaces_stops(s@, 0);
        assert(views(found@) =~= Seq::<Seq<char>>::empty());
    }
    while i < n
        invariant
            0 <= i <= n,
            n == s@.len(),
            i < n ==> !is_space_char(s@[i as int]),
            words_from(s@, 0) == views(found@) + words_from(s@, i as int),
        decreases n - i,
    {
        let end: usize = scan(s, i, false);
        proof {
            lemma_skip_word_advances(s@, i as int);
        }
        let ghost before = views(found@);
        found.push(s.substring_char(i, end));
        let next: usize = scan(s, end, true);
        proof {
            assert(views(found@) =~= before + seq![s@.subrange(i as int, end as int)]);
            lemma_words_skip_spaces(s@, end as int);
            assert(words_from(s@, 0) =~= views(found@) + words_from(s@, next as int));
            lemma_skip_spaces_stops(s@, end as int);
        }
        i = next;
    }
    proof {
        assert(words_from(s@, n as int) =~= Seq::<Seq<char>>::empty());
    }
    found
}

/// The words from a run of spaces on are the words behind it.
proof fn lemma_words_skip_spaces(s: Seq<char>, i: int)
    requires
        0 <= i <= s.len(),
    ensures
        words_from(s, i) == words_from(s, skip_spaces(s, i)),
    decreases s.len() - i,
{
    if i < s.len() && is_space_char(s[i]) {
        lemma_words_skip_spaces(s, i + 1);
    }
}

/// A run of spaces ends at the end or before a character that is no space.
proof fn lemma_skip_spaces_stops(s: Seq<char>, i: int)
    requires
        0 <= i <= s.len(),
    ensures
        i <= skip_spaces(s, i) <= s.len(),
        skip_spaces(s, i) < s.len() ==> !is_space_char(s[skip_spaces(s, i)]),
    decreases s.len() - i,
{
    if i < s.len() && is_space_char(s[i]) {
        lemma_skip_spaces_stops(s, i + 1);
    }
}

/// Index of the first `c` in `s` at or after `from`.
fn find(s: &str, c: char, from: usize) -> (r: usize)
    requires
        from <= s@.len(),
    ensures
        r == find_char(s@, c, from as int),
        from <= r <= s@.len(),
        r < s@.len() ==> s@[r as int] == c,
{
    let n: usize = s.unicode_len();
    let mut i: usize = from;
    while i < n && s.get_char(i) != c
        invariant
            from <= i <= n,
            n == s@.len(),
            find_char(s@, c, i as int) == find_char(s@, c, from as int),
        decreases n - i,
    {
        i = i + 1;
    }
    i
}

/// Value of the digits of `s` from `from` to `to`, added behind the digits
/// whose value is `start`; `None` if a character in between is no digit.
fn read_digits(s: &str, from: usize, to: usize, start: u128, Ghost(seen): Ghost<Seq<char>>) -> (r:
    Option<u128>)
    requires
        from <= to <= s@.len(),
        all_digits(seen),
        start == digits_value(seen),
        seen.len() + (to - from) <= MAX_DIGITS,
    ensures
        match r {
            Some(value) => all_digits(s@.subrange(from as int, to as int)) && value
                == digits_value(seen + s@.subrange(from as int, to as int)),
            None => !all_digits(s@.subrange(from as int, to as int)),
        },
{
    let mut value: u128 = start;
    let mut i: usize = from;
    proof {
        assert(seen + s@.subrange(from as int, from as int) =~= seen);
        lemma_digits_bound(seen);
    }
    while i < to
        invariant
            from <= i <= to <= s@.len(),
            all_digits(seen),
            all_digits(s@.subrange(from as int, i as int)),
            value == digits_value(seen + s@.subrange(from as int, i as int)),
            value < power_of_ten((seen.len() + (i - from)) as nat),
            seen.len() + (to - from) <= MAX_DIGITS,
        decreases to - i,
    {
        let c: char = s.get_char(i);
        let ghost part = s@.subrange(from as int, i as int);
        let ghost longer = s@.subrange(from as int, i + 1);
        proof {
            assert(longer =~= part.push(c));
            assert((seen + longer).drop_last() =~= seen + part);
            assert((seen + longer).last() == c);
        }
        if !(c >= '0' && c <= '9') {
            proof {
                let whole = s@.subrange(from as int, to as int);
                assert(whole[i - from] == c);
            }
            return None;
        }
        proof {
            assert forall|j: int| 0 <= j < longer.len() implies is_digit(#[trigger] longer[j]) by {
                if j < part.len() {
                    assert(longer[j] == part[j]);
                }
            }
            lemma_power_of_ten_bound((seen.len() + (i - from)) as nat);
            assert(power_of_ten((seen.len() + (i - from) + 1) as nat) == 10 * power_of_ten(
                (seen.len() + (i - from)) as nat,
            ));
        }
        value = value * 10 + (c as u32 - '0' as u32) as u128;
        i = i + 1;
    }
    proof {
        assert(s@.subrange(from as int, to as int) =~= s@.subrange(from as int, i as int));
    }
    Some(value)
}

/// A run of digits spells less than ten to the power of its length.
proof fn lemma_digits_bound(s: Seq<char>)
    requires
        all_digits(s),
    ensures
        0 <= digits_value(s) < power_of_ten(s.len()),
    decreases s.len(),
{
    if s.len() > 0 {
        assert(is_digit(s.last()));
        lemma_digits_bound(s.drop_last());
        assert(power_of_ten(s.len()) == 10 * power_of_ten((s.len() - 1) as nat));
    }
}

/// Powers of ten up to the twenty-eighth are less than two to the power
/// ninety-four.
proof fn lemma_power_of_ten_bound(k: nat)
    requires
        k <= MAX_DIGITS,
    ensures
        0 < power_of_ten(k) <= 10_000_000_000_000_000_000_000_000_000,
    decreases MAX_DIGITS - k,
{
    reveal_with_fuel(power_of_ten, 30);
    if k < MAX_DIGITS {
        lemma_power_of_ten_bound(k + 1);
    }
}

/// Ten to the power `k`.
fn ten_to(k: usize) -> (r: u128)
    requires
        k <= MAX_DIGITS,
    ensures
        r == power_of_ten(k as nat),
        0 < r <= 10_000_000_000_000_000_000_000_000_000,
{
    let mut r: u128 = 1;
    let mut i: usize = 0;
    while i < k
        invariant
            0 <= i <= k <= MAX_DIGITS,
            r == power_of_ten(i as nat),
        decreases k - i,
    {
        proof {
            lemma_power_of_ten_bound(i as nat);
            lemma_power_of_ten_bound((i + 1) as nat);
        }
        r = r * 10;
        i = i + 1;
    }
    proof {
        lemma_power_of_ten_bound(k as nat);
    }
    r
}

/// The fixed-point number that `s` spells in decimal.
pub fn parse_decimal(s: &str) -> (r: Option<Fixed>)
    ensures
        match r {
            Some(value) => parse_decimal_spec(s@) == Some(value@),
            None => parse_decimal_spec(s@) is None,
        },
{
    let n: usize = s.unicode_len();
    if n == 0 {
        proof {
            assert(whole_digits(unsigned_part(s@)) =~= Seq::<char>::empty());
        }
        return None;
    }
    let first: char = s.get_char(0);
    let negative: bool = first == '-';
    let from: usize = if first == '-' || first == '+' {
        1
    } else {
        0
    };
    let ghost body = unsigned_part(s@);
    let dot: usize = find(s, '.', from);
    let fraction_from: usize = if dot < n {
        dot + 1
    } else {
        n
    };
    proof {
        assert(body =~= s@.subrange(from as int, n as int));
        lemma_find_in_suffix(s@, '.', from as int, from as int);
        assert(whole_digits(body) =~= s@.subrange(from as int, dot as int));
        assert(fraction_digits(body) =~= s@.subrange(fraction_from as int, n as int));
    }
    let digits: usize = (dot - from) + (n - fraction_from);
    if digits == 0 || digits > MAX_DIGITS {
        return None;
    }
    let whole: Option<u128> = read_digits(s, from, dot, 0, Ghost(Seq::empty()));
    match whole {
        None => None,
        Some(high) => {
            let ghost seen = s@.subrange(from as int, dot as int);
            proof {
                assert(Seq::<char>::empty() + seen =~= seen);
            }
            match read_digits(s, fraction_from, n, high, Ghost(seen)) {
                None => None,
                Some(all) => {
                    let k: usize = n - fraction_from;
                    let scale: u128 = ten_to(k);
                    proof {
                        lemma_digits_bound(seen + s@.subrange(fraction_from as int, n as int));
                        lemma_power_of_ten_bound(digits as nat);
                        assert forall|j: int|
                            0 <= j < (seen + s@.subrange(
                                fraction_from as int,
                                n as int,
                            )).len() implies is_digit(
                            #[trigger] (seen + s@.subrange(fraction_from as int, n as int))[j],
                        ) by {
                            if j < seen.len() {
                                assert(is_digit(seen[j]));
                            } else {
                                assert(is_digit(
                                    s@.subrange(fraction_from as int, n as int)[j - seen.len()],
                                ));
                            }
                        }
                        assert(all * 0x1_0000_0000 <= 10_000_000_000_000_000_000_000_000_000
                            * 0x1_0000_0000) by (nonlinear_arith)
                            requires
                                all <= 10_000_000_000_000_000_000_000_000_000,
                        ;
                    }
                    let magnitude: u128 = (all * 0x1_0000_0000) / scale;
                    let raw: i64 = if negative {
                        if magnitude > 0x8000_0000_0000_0000 {
                            crate::fixed::RAW_MIN
                        } else {
                            (-(magnitude as i128)) as i64
                        }
                    } else {
                        if magnitude > RAW_MAX as u128 {
                            RAW_MAX
                        } else {
                            magnitude as i64
                        }
                    };
                    Some(Fixed { raw })
                },
            }
        },
    }
}

/// Searching a character from `from` on finds the same place in the part
/// of the text that starts at `base`.
proof fn lemma_find_in_suffix(s: Seq<char>, c: char, base: int, from: int)
    requires
        0 <= base <= from <= s.len(),
    ensures
        find_char(s.subrange(base, s.len() as int), c, from - base) == find_char(s, c, from) - base,
    decreases s.len() - from,
{
    let suffix = s.subrange(base, s.len() as int);
    if from < s.len() {
        assert(suffix[from - base] == s[from]);
        if s[from] != c {
            lemma_find_in_suffix(s, c, base, from + 1);
        }
    }
}

/// Whether the word is the given text.
fn word_is(word: &str, text: &str) -> (r: bool)
    ensures
        r == (word@ == text@),
{
    let n: usize = word.unicode_len();
    if n != text.unicode_len() {
        return false;
    }
    let mut i: usize = 0;
    while i < n
        invariant
            0 <= i <= n,
            n == word@.len(),
            n == text@.len(),
            forall|j: int| 0 <= j < i ==> word@[j] == text@[j],
        decreases n - i,
    {
        if word.get_char(i) != text.get_char(i) {
            return false;
        }
        i = i + 1;
    }
    proof {
        assert(word@ =~= text@);
    }
    true
}

/// The numbers that the words from `from` on spell; `None` if one of them
/// spells none.
pub open spec fn numbers_from(words: Seq<Seq<char>>, from: int) -> Option<Seq<int>>
    decreases words.len() - from,
{
    if from < 0 || from >= words.len() {
        Some(Seq::empty())
    } else {
        match (parse_decimal_spec(words[from]), numbers_from(words, from + 1)) {
            (Some(x), Some(rest)) => Some(seq![x] + rest),
            _ => None,
        }
    }
}

/// The numbers as raw values.
pub open spec fn as_raws(s: Seq<Fixed>) -> Seq<int> {
    s.map_values(|x: Fixed| x@)
}

/// The numbers that the words spell; `None` if one of them spells none.
pub fn parse_str_vec(v: Vec<&str>) -> (r: Option<Vec<Fixed>>)
    ensures
        match r {
            Some(numbers) => numbers_from(views(v@), 0) == Some(as_raws(numbers@)),
            None => numbers_from(views(v@), 0) is None,
        },
{
    let ghost all = views(v@);
    let mut numbers: Vec<Fixed> = Vec::new();
    let mut i: usize = 0;
    proof {
        match numbers_from(all, 0) {
            Some(rest) => {
                assert(as_raws(numbers@) + rest =~= rest);
            },
            None => {},
        }
    }
    while i < v.len()
        invariant
            0 <= i <= v@.len(),
            all == views(v@),
            numbers_from(all, 0) == joined(as_raws(numbers@), numbers_from(all, i as int)),
        decreases v@.len() - i,
    {
        match parse_decimal(v[i]) {
            None => {
                return None;
            },
            Some(x) => {
                let ghost before = as_raws(numbers@);
                let ghost earlier = numbers@;
                numbers.push(x);
                proof {
                    assert(numbers@ == earlier.push(x));
                    assert(as_raws(numbers@) =~= before.push(x@));
                    match numbers_from(all, i + 1) {
                        Some(rest) => {
                            assert(before + (seq![x@] + rest) =~= before.push(x@) + rest);
                        },
                        None => {},
                    }
                }
            },
        }
        i = i + 1;
    }
    proof {
        assert(as_raws(numbers@) + Seq::<int>::empty() =~= as_raws(numbers@));
    }
    Some(numbers)
}

/// The vector whose three coordinates stand behind the first word of the
/// line; `None` unless exactly three numbers stand there.
pub fn get_vector3_from_line(line: &str) -> (r: Option<Vector3>)
    ensures
        match r {
            Some(v) => vertex_of(words_from(line@, 0)) == Some(v@),
            None => vertex_of(words_from(line@, 0)) is None,
        },
{
    let parts: Vec<&str> = words(line);
    read_vertex(&parts)
}

/// The vertex that the words of a vertex line spell.
fn read_vertex(words: &Vec<&str>) -> (r: Option<Vector3>)
    ensures
        match r {
            Some(v) => vertex_of(views(words@)) == Some(v@),
            None => vertex_of(views(words@)) is None,
        },
{
    if words.len() != 4 {
        return None;
    }
    match (parse_decimal(words[1]), parse_decimal(words[2]), parse_decimal(words[3])) {
        (Some(x), Some(y), Some(z)) => Some(Vector3 { x, y, z }),
        _ => None,
    }
}

/// The positions that the corners of a face line name among `count`
/// vertices.
fn read_corners(words: &Vec<&str>, count: usize) -> (r: Option<Vec<usize>>)
    ensures
        match r {
            Some(corners) => corners_from(views(words@), count as int, 1) == Some(
                as_ints(corners@),
            ) && forall|k: int| 0 <= k < corners@.len() ==> #[trigger] corners@[k] < count,
            None => corners_from(views(words@), count as int, 1) is None,
        },
{
    let ghost all = views(words@);
    let mut corners: Vec<usize> = Vec::new();
    let mut i: usize = 1;
    if words.len() < 1 {
        proof {
            assert(as_ints(corners@) =~= Seq::<int>::empty());
        }
        return Some(corners);
    }
    proof {
        lemma_corners_prefix(all, count as int, 1, Seq::empty());
    }
    while i < words.len()
        invariant
            1 <= i <= words@.len(),
            all == views(words@),
            forall|k: int| 0 <= k < corners@.len() ==> #[trigger] corners@[k] < count,
            corners_from(all, count as int, 1) == joined(
                as_ints(corners@),
                corners_from(all, count as int, i as int),
            ),
        decreases words@.len() - i,
    {
        let corner: &str = words[i];
        let slash: usize = find(corner, '/', 0);
        match element_position(count, corner.substring_char(0, slash)) {
            None => {
                return None;
            },
            Some(position) => {
                let ghost before = as_ints(corners@);
                let ghost earlier = corners@;
                corners.push(position);
                proof {
                    assert(corners@ == earlier.push(position));
                    assert(as_ints(corners@) =~= before.push(position as int));
                    lemma_corners_prefix(all, count as int, i + 1, as_ints(corners@));
                    match corners_from(all, count as int, i + 1) {
                        Some(rest) => {
                            assert(before + (seq![position as int] + rest) =~= before.push(
                                position as int,
                            ) + rest);
                        },
                        None => {},
                    }
                }
            },
        }
        i = i + 1;
    }
    proof {
        assert(as_ints(corners@) + Seq::<int>::empty() =~= as_ints(corners@));
    }
    Some(corners)
}

/// The corners read so far, followed by those that are still to be read;
/// `None` if one of these names no vertex.
pub open spec fn joined(read: Seq<int>, rest: Option<Seq<int>>) -> Option<Seq<int>> {
    match rest {
        Some(rest) => Some(read + rest),
        None => None,
    }
}

/// Joining with the corners that are still to be read is defined for every
/// place in the line.
proof fn lemma_corners_prefix(words: Seq<Seq<char>>, count: int, from: int, read: Seq<int>)
    ensures
        from == 1 && read.len() == 0 ==> joined(read, corners_from(words, count, from))
            == corners_from(words, count, from),
{
    match corners_from(words, count, from) {
        Some(rest) => {
            assert(read.len() == 0 ==> read + rest =~= rest);
        },
        None => {},
    }
}

/// The triangles of a fan around the first corner.
fn fan(corners: &Vec<usize>) -> (r: Vec<usize>)
    ensures
        as_ints(r@) == fan_from(as_ints(corners@), 1),
        forall|k: int|
            0 <= k < r@.len() ==> exists|j: int|
                0 <= j < corners@.len() && #[trigger] r@[k] == #[trigger] corners@[j],
        r@.len() % 3 == 0,
{
    let ghost model = as_ints(corners@);
    let mut triangles: Vec<usize> = Vec::new();
    let mut k: usize = 1;
    proof {
        assert(as_ints(triangles@) + fan_from(model, 1) =~= fan_from(model, 1));
    }
    while k < corners.len() && k + 1 < corners.len()
        invariant
            1 <= k,
            model == as_ints(corners@),
            fan_from(model, 1) == as_ints(triangles@) + fan_from(model, k as int),
            forall|q: int|
                0 <= q < triangles@.len() ==> exists|j: int|
                    0 <= j < corners@.len() && #[trigger] triangles@[q] == #[trigger] corners@[j],
            triangles@.len() % 3 == 0,
        decreases corners@.len() - k,
    {
        let ghost before = triangles@;
        triangles.push(corners[0]);
        triangles.push(corners[k]);
        triangles.push(corners[k + 1]);
        proof {
            assert(triangles@ == before.push(corners@[0]).push(corners@[k as int]).push(
                corners@[k + 1],
            ));
            assert(as_ints(triangles@) =~= as_ints(before) + seq![
                model[0],
                model[k as int],
                model[k + 1],
            ]);
            assert(as_ints(triangles@) + fan_from(model, k + 1) =~= as_ints(before) + fan_from(
                model,
                k as int,
            ));
            assert forall|q: int| 0 <= q < triangles@.len() implies exists|j: int|
                0 <= j < corners@.len() && #[trigger] triangles@[q] == #[trigger] corners@[j] by {
                if q < before.len() {
                    assert(triangles@[q] == before[q]);
                } else if q == before.len() {
                    assert(triangles@[q] == corners@[0]);
                } else if q == before.len() + 1 {
                    assert(triangles@[q] == corners@[k as int]);
                } else {
                    assert(triangles@[q] == corners@[k + 1]);
                }
            }
        }
        k = k + 1;
    }
    proof {
        assert(as_ints(triangles@) + Seq::<int>::empty() =~= as_ints(triangles@));
    }
    triangles
}

/// The indices of the triangles into which a face line is cut.
fn read_face(words: &Vec<&str>, count: usize) -> (r: Option<Vec<usize>>)
    ensures
        match r {
            Some(triangles) => face_of(views(words@), count as int) == Some(
                as_ints(triangles@),
            ) && triangles@.len() % 3 == 0 && forall|k: int|
                0 <= k < triangles@.len() ==> #[trigger] triangles@[k] < count,
            None => face_of(views(words@), count as int) is None,
        },
{
    match read_corners(words, count) {
        None => None,
        Some(corners) => {
            if corners.len() >= 3 {
                let triangles: Vec<usize> = fan(&corners);
                proof {
                    assert forall|k: int| 0 <= k < triangles@.len() implies #[trigger] triangles@[k]
                        < count by {
                        let j = choose|j: int|
                            0 <= j < corners@.len() && #[trigger] triangles@[k]
                                == #[trigger] corners@[j];
                    }
                }
                Some(triangles)
            } else {
                None
            }
        },
    }
}

/// Reads a mesh from the lines of a file. Lines that start with `v` give a
/// vertex by its three coordinates. Lines that start with `f` give a face
/// by three or more corners, each of which names a vertex read before it,
/// counted from one, or back from the last with a negative number; what
/// follows a slash in a corner is passed over, and a face with more than
/// three corners is cut into a fan of triangles around its first corner.
/// Empty lines, comments and lines on texture coordinates, normals,
/// objects, groups, smoothing and materials are passed over. The first line
/// that is none of these is reported.
pub fn parse_mesh(lines: &Vec<String>) -> (r: Result<Mesh, MeshFileError>)
    ensures
        match r {
            Ok(mesh) => after_lines(lines@, lines@.len() as int) == Ok::<MeshModel, int>(mesh@)
                && mesh.indices@.len() % 3 == 0 && forall|k: int|
                0 <= k < mesh.indices@.len() ==> #[trigger] mesh.indices@[k] < mesh.vertices@.len(),
            Err(e) => after_lines(lines@, lines@.len() as int) == Err::<MeshModel, int>(
                e.line as int,
            ),
        },
{
    let mut vertices: Vec<Vector3> = Vec::new();
    let mut indices: Vec<usize> = Vec::new();
    let mut n: usize = 0;
    proof {
        assert(as_models(vertices@) =~= Seq::<V3>::empty());
        assert(as_ints(indices@) =~= Seq::<int>::empty());
    }
    while n < lines.len()
        invariant
            0 <= n <= lines@.len(),
            after_lines(lines@, n as int) == Ok::<MeshModel, int>(
                MeshModel {
                    vertices: as_models(vertices@),
                    indices: as_ints(indices@),
                },
            ),
            indices@.len() % 3 == 0,
            forall|k: int| 0 <= k < indices@.len() ==> #[trigger] indices@[k] < vertices@.len(),
        decreases lines@.len() - n,
    {
        let line: &str = lines[n].as_str();
        let parts: Vec<&str> = words(line);
        let ghost seen = views(parts@);
        let comment: bool = parts.len() > 0 && parts[0].unicode_len() > 0 && parts[0].get_char(0)
            == '#';
        proof {
            lemma_words_nonempty(line@, 0);
            assert(parts@.len() > 0 ==> seen[0] == parts@[0]@);
        }
        if parts.len() == 0 || comment {
        } else if word_is(parts[0], "v") {
            match read_vertex(&parts) {
                None => {
                    proof {
                        lemma_refused(lines@, n as int, lines@.len() as int);
                    }
                    return Err(MeshFileError { line: n });
                },
                Some(v) => {
                    let ghost before = as_models(vertices@);
                    let ghost earlier = vertices@;
                    vertices.push(v);
                    proof {
                        assert(vertices@ == earlier.push(v));
                        assert(as_models(vertices@) =~= before.push(v@));
                    }
                },
            }
        } else if word_is(parts[0], "f") {
            match read_face(&parts, vertices.len()) {
                None => {
                    proof {
                        lemma_refused(lines@, n as int, lines@.len() as int);
                    }
                    return Err(MeshFileError { line: n });
                },
                Some(triangles) => {
                    let ghost before = indices@;
                    let ghost added = triangles@;
                    let mut triangles = triangles;
                    indices.append(&mut triangles);
                    proof {
                        assert(as_ints(indices@) =~= as_ints(before)
                            + as_ints(added));
                        assert forall|k: int| 0 <= k < indices@.len() implies #[trigger] indices@[k]
                            < vertices@.len() by {
                            if k < before.len() {
                                assert(indices@[k] == before[k]);
                            } else {
                                assert(indices@[k] == added[k - before.len()]);
                            }
                        }
                    }
                },
            }
        } else if word_is(parts[0], "vt") || word_is(parts[0], "vn") || word_is(parts[0], "o")
            || word_is(parts[0], "g") || word_is(parts[0], "s") || word_is(parts[0], "usemtl")
            || word_is(parts[0], "mtllib") {
        } else {
            proof {
                lemma_refused(lines@, n as int, lines@.len() as int);
            }
            return Err(MeshFileError { line: n });
        }
        n = n + 1;
    }
    Ok(Mesh { vertices, indices })
}

/// No word is empty.
proof fn lemma_words_nonempty(s: Seq<char>, i: int)
    requires
        0 <= i,
    ensures
        forall|k: int|
            0 <= k < words_from(s, i).len() ==> (#[trigger] words_from(s, i)[k]).len() > 0,
    decreases s.len() - i,
{
    if i < s.len() {
        if is_space_char(s[i]) {
            lemma_words_nonempty(s, i + 1);
            assert(words_from(s, i) == words_from(s, i + 1));
        } else {
            lemma_skip_word_advances(s, i);
            lemma_words_nonempty(s, skip_word(s, i));
            let first = s.subrange(i, skip_word(s, i));
            let rest = words_from(s, skip_word(s, i));
            assert(words_from(s, i) == seq![first] + rest);
            assert forall|k: int| 0 <= k < words_from(s, i).len() implies (#[trigger] words_from(
                s,
                i,
            )[k]).len() > 0 by {
                if k > 0 {
                    assert(words_from(s, i)[k] == rest[k - 1]);
                } else {
                    assert(words_from(s, i)[0] == first);
                }
            }
        }
    } else {
        assert(words_from(s, i).len() == 0);
    }
}

/// Once a line is refused, it stays the one that is reported.
proof fn lemma_refused(lines: Seq<String>, at: int, n: int)
    requires
        0 <= at < n,
        after_lines(lines, at + 1) == Err::<MeshModel, int>(at),
    ensures
        after_lines(lines, n) == Err::<MeshModel, int>(at),
    decreases n,
{
    if n > at + 1 {
        lemma_refused(lines, at, n - 1);
    }
}

} // verus!
