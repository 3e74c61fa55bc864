use vstd::prelude::*;

use crate::color::Srgb8;

verus! {

/// The arguments of the first node named `name` in the KDL document written
/// in `text`, each as an integer where it is one; `None` when the `kdl` crate
/// does not accept `text` as a document.
pub uninterp spec fn kdl_node_integers(text: Seq<char>, name: Seq<char>) -> Option<Seq<Option<i64>>>;

/// A character that can follow a keyword within one plain identifier (a
/// subset of the characters KDL allows there).
pub open spec fn continues_identifier(c: char) -> bool {
    ('a' <= c && c <= 'z') || ('A' <= c && c <= 'Z') || ('0' <= c && c <= '9') || c == '-' || c == '_' || c == '.'
}

/// At position `i`, `text` holds `(` followed by `keyword` as a whole word.
pub open spec fn keyword_in_parentheses_at(text: Seq<char>, i: int, keyword: Seq<char>) -> bool {
    let end = i + 1 + keyword.len();
    &&& 0 <= i
    &&& end <= text.len()
    &&& text[i] == '('
    &&& text.subrange(i + 1, end) == keyword
    &&& end < text.len() ==> !continues_identifier(text[end])
}

/// The KDL keywords, which cannot name a type in parentheses.
pub open spec fn kdl_keywords() -> Seq<Seq<char>> {
    seq![seq!['t', 'r', 'u', 'e'], seq!['f', 'a', 'l', 's', 'e'], seq!['n', 'u', 'l', 'l']]
}

/// `text` holds a keyword in parentheses somewhere, as in `(true)`. The `kdl`
/// crate's parser can panic on such a type annotation, so the library does not
/// hand such a text to it.
pub open spec fn has_keyword_in_parentheses(text: Seq<char>) -> bool {
    exists|i: int, k: int| 0 <= k < 3 && #[trigger] keyword_in_parentheses_at(text, i, kdl_keywords()[k])
}

/// The characters of `text`, in order.
fn text_chars(text: &str) -> (r: Vec<char>)
    ensures
        r@ == text@,
{
    let n = text.unicode_len();
    let mut r: Vec<char> = Vec::new();
    let mut i: usize = 0;
    while i < n
        invariant
            n == text@.len(),
            i <= n,
            r@ == text@.take(i as int),
        decreases n - i,
    {
        r.push(text.get_char(i));
        i += 1;
        assert(r@ =~= text@.take(i as int));
    }
    assert(r@ =~= text@);
    r
}

/// Whether `chars` holds `(` at `i` followed by `keyword` as a whole word.
fn keyword_in_parentheses_here(chars: &Vec<char>, i: usize, keyword: &Vec<char>) -> (r: bool)
    ensures
        r == keyword_in_parentheses_at(chars@, i as int, keyword@),
{
    let n = chars.len();
    let m = keyword.len();
    if i >= n || m >= n - i || chars[i] != '(' {
        return false;
    }
    let mut j: usize = 0;
    while j < m
        invariant
            n == chars@.len(),
            m == keyword@.len(),
            i + 1 + m <= n,
            j <= m,
            forall|k: int| 0 <= k < j ==> chars@[i + 1 + k] == keyword@[k],
        decreases m - j,
    {
        if chars[i + 1 + j] != keyword[j] {
            assert(chars@.subrange(i + 1, i + 1 + m)[j as int] != keyword@[j as int]);
            return false;
        }
        j += 1;
    }
    assert(chars@.subrange(i + 1, i + 1 + m) =~= keyword@);
    let end = i + 1 + m;
    if end < n {
        let c = chars[end];
        !(('a' <= c && c <= 'z') || ('A' <= c && c <= 'Z') || ('0' <= c && c <= '9') || c == '-' || c == '_' || c == '.')
    } else {
        true
    }
}

/// Whether `text` holds a KDL keyword in parentheses somewhere.
pub fn contains_keyword_in_parentheses(text: &str) -> (r: bool)
    ensures
        r == has_keyword_in_parentheses(text@),
{
    let chars = text_chars(text);
    let keywords = vec![vec!['t', 'r', 'u', 'e'], vec!['f', 'a', 'l', 's', 'e'], vec!['n', 'u', 'l', 'l']];
    assert(keywords@[0]@ =~= kdl_keywords()[0]);
    assert(keywords@[1]@ =~= kdl_keywords()[1]);
    assert(keywords@[2]@ =~= kdl_keywords()[2]);
    let mut i: usize = 0;
    while i < chars.len()
        invariant
            chars@ == text@,
            keywords@.len() == 3,
            forall|k: int| 0 <= k < 3 ==> #[trigger] keywords@[k]@ == kdl_keywords()[k],
            i <= chars@.len(),
            forall|p: int, k: int| 0 <= p < i && 0 <= k < 3 ==> !#[trigger] keyword_in_parentheses_at(text@, p, kdl_keywords()[k]),
        decreases chars@.len() - i,
    {
        let mut k: usize = 0;
        while k < 3
            invariant
                chars@ == text@,
                keywords@.len() == 3,
                forall|q: int| 0 <= q < 3 ==> #[trigger] keywords@[q]@ == kdl_keywords()[q],
                i < chars@.len(),
                k <= 3,
                forall|q: int| 0 <= q < k ==> !#[trigger] keyword_in_parentheses_at(text@, i as int, kdl_keywords()[q]),
            decreases 3 - k,
        {
            if keyword_in_parentheses_here(&chars, i, &keywords[k]) {
                assert(keyword_in_parentheses_at(text@, i as int, kdl_keywords()[k as int]));
                return true;
            }
            k += 1;
        }
        i += 1;
    }
    assert forall|p: int, k: int| 0 <= k < 3 implies !#[trigger] keyword_in_parentheses_at(text@, p, kdl_keywords()[k]) by {
        if 0 <= p < text@.len() {
        }
    }
    false
}

/// Parses `text` with the `kdl` crate (`KdlDocument::from_str`) and reads the
/// arguments of the first node named `name` (`KdlDocument::get_args`), each
/// converted with `KdlValue::as_i64`. Claimed: the result is a function of the
/// two strings alone. Not called on a text with a keyword in parentheses,
/// on which the crate's parser can panic while it reports the error.
#[verifier::external_body]
fn kdl_integer_args(text: &str, name: &str) -> (r: Option<Vec<Option<i64>>>)
    requires
        !has_keyword_in_parentheses(text@),
    ensures
        match kdl_node_integers(text@, name@) {
            Some(values) => r matches Some(v) && v@ == values,
            None => r is None,
        },
{
    let document = text.parse::<kdl::KdlDocument>().ok()?;
    Some(document.get_args(name).into_iter().map(|value| value.as_i64()).collect())
}

/// The application's settings; `R` is a stroke radius.
pub struct Config<R> {
    pub default_canvas_color: Srgb8,
    pub default_stroke_color: Srgb8,
    pub default_stroke_radius: R,
}

/// The bytes that exactly `n` integer arguments, each fitting in a byte, spell.
pub open spec fn integer_array_spec(values: Seq<Option<i64>>, n: nat) -> Option<Seq<u8>> {
    if values.len() == n && forall|i: int| 0 <= i < n ==> (#[trigger] values[i] matches Some(v) && 0 <= v <= 255) {
        Some(Seq::new(n, |i: int| values[i].unwrap() as u8))
    } else {
        None
    }
}

/// Reads exactly `N` integer arguments that each fit in a byte.
pub fn parse_kdl_integer_array<const N: usize>(values: &Vec<Option<i64>>) -> (r: Option<[u8; N]>)
    ensures
        match integer_array_spec(values@, N as nat) {
            Some(a) => r matches Some(array) && array@ == a,
            None => r is None,
        },
{
    if values.len() != N {
        return None;
    }
    let mut array = [0u8; N];
    let mut i: usize = 0;
    while i < N
        invariant
            0 <= i <= N,
            values@.len() == N,
            forall|k: int| 0 <= k < i ==> (#[trigger] values@[k] matches Some(v) && 0 <= v <= 255 && array@[k] == v as u8),
        decreases N - i,
    {
        match values[i] {
            Some(v) => {
                if v < 0 || v > 255 {
                    return None;
                }
                array[i] = v as u8;
            },
            None => {
                return None;
            },
        }
        i += 1;
    }
    assert(array@ =~= Seq::new(N as nat, |k: int| values@[k].unwrap() as u8));
    Some(array)
}

/// The settings that the parsed arguments give, each falling back on `default`.
pub open spec fn config_from_arguments<R>(
    canvas_args: Seq<Option<i64>>,
    stroke_args: Seq<Option<i64>>,
    stroke_radius: Option<R>,
    default: Config<R>,
) -> (Seq<u8>, Seq<u8>, R) {
    (
        match integer_array_spec(canvas_args, 3) {
            Some(c) => c,
            None => default.default_canvas_color.0@,
        },
        match integer_array_spec(stroke_args, 3) {
            Some(c) => c,
            None => default.default_stroke_color.0@,
        },
        match stroke_radius {
            Some(r) => r,
            None => default.default_stroke_radius,
        },
    )
}

impl<R> Config<R> {
    /// The built-in settings, with the given stroke radius.
    pub fn with_stroke_radius(default_stroke_radius: R) -> (r: Self)
        ensures
            r.default_canvas_color.0@ == seq![0x12u8, 0x12u8, 0x12u8],
            r.default_stroke_color.0@ == seq![0xffu8, 0xffu8, 0xffu8],
            r.default_stroke_radius == default_stroke_radius,
    {
        let r = Config {
            default_canvas_color: Srgb8([0x12, 0x12, 0x12]),
            default_stroke_color: Srgb8([0xff, 0xff, 0xff]),
            default_stroke_radius,
        };
        assert(r.default_canvas_color.0@ =~= seq![0x12u8, 0x12u8, 0x12u8]);
        assert(r.default_stroke_color.0@ =~= seq![0xffu8, 0xffu8, 0xffu8]);
        r
    }

    /// The settings from the `default-canvas-color` and `default-stroke-color`
    /// arguments and a stroke radius, each falling back on `default`.
    pub fn from_arguments(
        canvas_args: &Vec<Option<i64>>,
        stroke_args: &Vec<Option<i64>>,
        stroke_radius: Option<R>,
        default: Self,
    ) -> (r: Self)
        ensures
            (r.default_canvas_color.0@, r.default_stroke_color.0@, r.default_stroke_radius)
                == config_from_arguments(canvas_args@, stroke_args@, stroke_radius, default),
    {
        let default_canvas_color = match parse_kdl_integer_array::<3>(canvas_args) {
            Some(c) => Srgb8(c),
            None => default.default_canvas_color,
        };
        let default_stroke_color = match parse_kdl_integer_array::<3>(stroke_args) {
            Some(c) => Srgb8(c),
            None => default.default_stroke_color,
        };
        let default_stroke_radius = match stroke_radius {
            Some(r) => r,
            None => default.default_stroke_radius,
        };
        Config { default_canvas_color, default_stroke_color, default_stroke_radius }
    }

    /// The settings written in the KDL text `text`; `None` when it is not KDL,
    /// and also whenever it holds a keyword in parentheses (such as `(true)`),
    /// even inside a string or a comment, since the `kdl` crate can panic on
    /// such a type annotation. Colours the text does not give properly fall
    /// back on `default`, and so does the stroke radius when `stroke_radius`
    /// is `None`.
    pub fn from_kdl_text(text: &str, stroke_radius: Option<R>, default: Self) -> (r: Option<Self>)
        ensures
            has_keyword_in_parentheses(text@) ==> r is None,
            !has_keyword_in_parentheses(text@) ==> match (
                kdl_node_integers(text@, "default-canvas-color"@),
                kdl_node_integers(text@, "default-stroke-color"@),
            ) {
                (Some(canvas_args), Some(stroke_args)) => r matches Some(c)
                    && (c.default_canvas_color.0@, c.default_stroke_color.0@, c.default_stroke_radius)
                    == config_from_arguments(canvas_args, stroke_args, stroke_radius, default),
                _ => r is None,
            },
    {
        if contains_keyword_in_parentheses(text) {
            return None;
        }
        let canvas_args = kdl_integer_args(text, "default-canvas-color");
        let stroke_args = kdl_integer_args(text, "default-stroke-color");
        match (canvas_args, stroke_args) {
            (Some(canvas_args), Some(stroke_args)) => Some(
                Self::from_arguments(&canvas_args, &stroke_args, stroke_radius, default),
            ),
            _ => None,
        }
    }
}

} // verus!
