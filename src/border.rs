//! Border styles: parsing `none` / `normal [w]` / `pixel [w]`, writing them
//! back as text and as a command, and stepping through a list of styles.
use vstd::prelude::*;
use vstd::string::*;

use crate::model::{Node, NodeBorder};
use crate::text::{
    i32_value, int_text, is_white, lemma_int_text_round_trip,
    lowercase, lowered, next_token, parse_i32, plain_lower_text, push_int_text, skip_white,
    skip_word, text_eq, token_after,
};

verus! {

/// A border style: its kind and, optionally, the width asked for.
///
/// Two borders are equal when their kinds are equal. The width is left out of
/// the comparison: the window manager reports widths in device-scaled pixels,
/// which cannot be turned back into the pixels that a user asks for.
#[derive(Debug, Clone, Copy)]
pub struct Border {
    pub border: NodeBorder,
    pub width: Option<i32>,
}

impl PartialEq for Border {
    fn eq(&self, other: &Self) -> (r: bool)
        ensures
            r == (self.border == other.border),
    {
        self.border == other.border
    }
}

impl vstd::std_specs::cmp::PartialEqSpecImpl for Border {
    open spec fn obeys_eq_spec() -> bool {
        true
    }

    open spec fn eq_spec(&self, other: &Border) -> bool {
        self.border == other.border
    }
}

impl Eq for Border {
}

/// Why a list of border styles cannot be stepped through.
#[derive(Debug, Clone, Copy, PartialEq, Eq, Structural)]
pub enum ToggleError {
    /// The list is empty.
    NoStates,
    /// Two entries of the list have the same kind.
    DuplicateStates,
}

/// The border that a lower-cased kind word and an optional width stand for.
/// `none` never carries a width.
pub open spec fn border_of(word: Seq<char>, width: Option<i32>) -> Option<Border> {
    if word == "none"@ {
        Some(Border { border: NodeBorder::NoBorder, width: None })
    } else if word == "normal"@ {
        Some(Border { border: NodeBorder::Normal, width })
    } else if word == "pixel"@ {
        Some(Border { border: NodeBorder::Pixel, width })
    } else {
        None
    }
}

/// What a border string stands for: its first whitespace-separated token is
/// the kind, in any case; a second token, if there is one, must be a decimal
/// `i32` and is the width. Further tokens are ignored.
pub open spec fn border_value(s: Seq<char>) -> Option<Border> {
    match token_after(s, 0) {
        None => None,
        Some((a, b)) => {
            let word = lowered(s.subrange(a, b));
            match token_after(s, b) {
                None => border_of(word, None),
                Some((c, d)) => match i32_value(s.subrange(c, d)) {
                    Some(w) => border_of(word, Some(w as i32)),
                    None => None,
                },
            }
        },
    }
}

/// The width as it follows the kind word in text: a space and the decimal
/// number, or nothing.
pub open spec fn width_text(width: Option<i32>) -> Seq<char> {
    match width {
        Some(w) => seq![' '] + int_text(w as int),
        None => seq![],
    }
}

/// A border written as text: its kind word, then its width if it has one.
pub open spec fn border_text(b: Border) -> Seq<char> {
    match b.border {
        NodeBorder::NoBorder => "none"@,
        NodeBorder::Normal => "normal"@ + width_text(b.width),
        NodeBorder::Pixel => "pixel"@ + width_text(b.width),
    }
}

/// A border that parsing can give: `none` carries no width.
pub open spec fn is_canonical(b: Border) -> bool {
    b.border == NodeBorder::NoBorder ==> b.width is None
}

/// The first position at or after `i` whose entry has kind `k`, or 0 when no
/// such entry exists.
pub open spec fn kind_position(s: Seq<Border>, k: NodeBorder, i: int) -> int
    decreases s.len() - i,
{
    if i < 0 || i >= s.len() {
        0
    } else if s[i].border == k {
        i
    } else {
        kind_position(s, k, i + 1)
    }
}

/// Whether two entries of the list have the same kind.
pub open spec fn has_duplicate_kinds(s: Seq<Border>) -> bool {
    exists|i: int, j: int| 0 <= i < j < s.len() && s[i].border == s[j].border
}

/// The entry after the first one of `current`'s kind (or after the first entry,
/// if there is none of that kind), wrapping past the end.
pub open spec fn toggled(s: Seq<Border>, current: Border) -> Border {
    s[(kind_position(s, current.border, 0) + 1) % (s.len() as int)]
}

/// Builds the border for a lower-cased kind word and an optional width.
pub fn border_from_word(word: &str, width: Option<i32>) -> (r: Result<Border, String>)
    ensures
        match r {
            Ok(b) => border_of(word@, width) == Some(b),
            Err(_) => border_of(word@, width) is None,
        },
{
    if text_eq(word, "none") {
        Ok(Border { border: NodeBorder::NoBorder, width: None })
    } else if text_eq(word, "normal") {
        Ok(Border { border: NodeBorder::Normal, width })
    } else if text_eq(word, "pixel") {
        Ok(Border { border: NodeBorder::Pixel, width })
    } else {
        let mut msg = String::from_str("'");
        msg.append(word);
        msg.append("': expected one of: 'none', 'normal', 'pixel'");
        Err(msg)
    }
}

/// Parses a border string such as `none`, `Normal 2` or `pixel 3`.
pub fn parse_border(input: &str) -> (r: Result<Border, String>)
    ensures
        match r {
            Ok(b) => border_value(input@) == Some(b),
            Err(_) => border_value(input@) is None,
        },
{
    let len = input.unicode_len();
    let (a, b) = match next_token(input, len, 0) {
        Some(t) => t,
        None => {
            return Err(String::from_str("expected at least one token"));
        },
    };
    let word = lowercase(input.substring_char(a, b));
    let width = match next_token(input, len, b) {
        None => None,
        Some((c, d)) => {
            let w = input.substring_char(c, d);
            match parse_i32(w) {
                Some(v) => Some(v),
                None => {
                    let mut msg = String::from_str("'");
                    msg.append(w);
                    msg.append("': the width must be a decimal integer");
                    return Err(msg);
                },
            }
        },
    };
    border_from_word(word.as_str(), width)
}

/// Checks that a string is a valid border.
pub fn validate_border(border: String) -> (r: Result<(), String>)
    ensures
        r is Ok <==> border_value(border@) is Some,
{
    match parse_border(border.as_str()) {
        Ok(_) => Ok(()),
        Err(e) => Err(e),
    }
}

impl Border {
    /// The border that a node has now, with its reported width.
    pub fn of_node(n: &Node) -> (r: Border)
        ensures
            r == (Border { border: n.border, width: Some(n.current_border_width) }),
    {
        Border { border: n.border, width: Some(n.current_border_width) }
    }

    /// Appends the border's text to `out`.
    pub fn push_text(&self, out: &mut String)
        ensures
            final(out)@ == old(out)@ + border_text(*self),
    {
        match self.border {
            NodeBorder::NoBorder => {
                out.append("none");
            },
            NodeBorder::Normal => {
                out.append("normal");
                self.push_width(out);
                assert(final(out)@ =~= old(out)@ + border_text(*self));
            },
            NodeBorder::Pixel => {
                out.append("pixel");
                self.push_width(out);
                assert(final(out)@ =~= old(out)@ + border_text(*self));
            },
        }
    }

    fn push_width(&self, out: &mut String)
        ensures
            final(out)@ == old(out)@ + width_text(self.width),
    {
        match self.width {
            Some(w) => {
                proof {
                    reveal_strlit(" ");
                }
                out.append(" ");
                push_int_text(out, w);
                assert(final(out)@ =~= old(out)@ + width_text(self.width));
            },
            None => {
                assert(old(out)@ + width_text(self.width) =~= old(out)@);
            },
        }
    }

    /// The border as text, in the form that `parse_border` reads.
    pub fn to_text(&self) -> (r: String)
        ensures
            r@ == border_text(*self),
    {
        let mut out = String::new();
        self.push_text(&mut out);
        assert(out@ =~= border_text(*self));
        out
    }
}

/// The command that gives the windows selected by `criteria` the border `b`.
pub fn border_command(criteria: &str, b: &Border) -> (r: String)
    ensures
        r@ == "["@ + criteria@ + "] border "@ + border_text(*b),
{
    let mut out = String::from_str("[");
    out.append(criteria);
    out.append("] border ");
    b.push_text(&mut out);
    out
}

/// Picks the border style that follows `current` in `states`.
///
/// The entry of `current`'s kind is looked up (widths play no part); the
/// entry after it is returned, wrapping past the end. When no entry has that
/// kind, the lookup counts as having found the first entry.
pub fn toggle_border(states: &Vec<Border>, current: &Border) -> (r: Result<Border, ToggleError>)
    ensures
        states@.len() == 0 ==> r == Err::<Border, ToggleError>(ToggleError::NoStates),
        states@.len() > 0 && has_duplicate_kinds(states@) ==> r == Err::<Border, ToggleError>(
            ToggleError::DuplicateStates,
        ),
        states@.len() > 0 && !has_duplicate_kinds(states@) ==> r == Ok::<Border, ToggleError>(
            toggled(states@, *current),
        ),
{
    let n = states.len();
    if n == 0 {
        return Err(ToggleError::NoStates);
    }
    let mut i: usize = 0;
    while i < n
        invariant
            n == states@.len(),
            i <= n,
            forall|p: int, q: int|
                0 <= p < q < n && p < i ==> states@[p].border != states@[q].border,
        decreases n - i,
    {
        let mut j: usize = i + 1;
        while j < n
            invariant
                n == states@.len(),
                i < n,
                i < j <= n,
                forall|p: int, q: int|
                    0 <= p < q < n && p < i ==> states@[p].border != states@[q].border,
                forall|q: int| i < q < j ==> states@[i as int].border != states@[q].border,
            decreases n - j,
        {
            if states[i].border == states[j].border {
                return Err(ToggleError::DuplicateStates);
            }
            j = j + 1;
        }
        i = i + 1;
    }
    let mut k: usize = 0;
    while k < n && states[k].border != current.border
        invariant
            n == states@.len(),
            k <= n,
            kind_position(states@, current.border, k as int) == kind_position(
                states@,
                current.border,
                0,
            ),
            !has_duplicate_kinds(states@),
        decreases n - k,
    {
        k = k + 1;
    }
    let pos = if k == n {
        0
    } else {
        k
    };
    Ok(states[(pos + 1) % n])
}

proof fn lemma_kind_position(s: Seq<Border>, k: NodeBorder, i: int)
    requires
        0 <= i <= s.len(),
    ensures
        0 <= kind_position(s, k, i) < s.len() || (s.len() == 0 && kind_position(s, k, i) == 0),
        (exists|j: int| i <= j < s.len() && s[j].border == k) ==> s[kind_position(
            s,
            k,
            i,
        )].border == k,
        (forall|j: int| i <= j < s.len() ==> s[j].border != k) ==> kind_position(s, k, i) == 0,
    decreases s.len() - i,
{
    if i < s.len() && s[i].border != k {
        lemma_kind_position(s, k, i + 1);
        if exists|j: int| i <= j < s.len() && s[j].border == k {
            let j = choose|j: int| i <= j < s.len() && s[j].border == k;
            assert(j != i);
        }
    }
}

/// Stepping through a list whose kinds are distinct: the entry after the one
/// of `current`'s kind comes next, wrapping past the end; when no entry has
/// that kind, the list's second entry comes next (its only entry, in a list
/// of one).
pub proof fn lemma_toggle_next(s: Seq<Border>, current: Border)
    requires
        s.len() > 0,
        !has_duplicate_kinds(s),
    ensures
        forall|i: int|
            0 <= i < s.len() && #[trigger] s[i].border == current.border ==> toggled(s, current)
                == s[(i + 1) % (s.len() as int)],
        (forall|i: int| 0 <= i < s.len() ==> s[i].border != current.border) ==> toggled(s, current)
            == s[1int % (s.len() as int)],
{
    let p = kind_position(s, current.border, 0);
    lemma_kind_position(s, current.border, 0);
    assert forall|i: int|
        0 <= i < s.len() && #[trigger] s[i].border == current.border implies p == i by {
        if p < i {
            lemma_distinct_kinds(s, p, i);
        } else if i < p {
            lemma_distinct_kinds(s, i, p);
        }
    }
}

proof fn lemma_distinct_kinds(s: Seq<Border>, i: int, j: int)
    requires
        !has_duplicate_kinds(s),
        0 <= i < j < s.len(),
    ensures
        s[i].border != s[j].border,
{
}

proof fn lemma_skip_word_run(s: Seq<char>, i: int, j: int)
    requires
        0 <= i <= j <= s.len(),
        forall|k: int| i <= k < j ==> !is_white(#[trigger] s[k]),
        j == s.len() || is_white(s[j]),
    ensures
        skip_word(s, i) == j,
    decreases j - i,
{
    if i < j {
        lemma_skip_word_run(s, i + 1, j);
    }
}

proof fn lemma_kind_words()
    ensures
        "none"@ == seq!['n', 'o', 'n', 'e'],
        "normal"@ == seq!['n', 'o', 'r', 'm', 'a', 'l'],
        "pixel"@ == seq!['p', 'i', 'x', 'e', 'l'],
        plain_lower_text("none"@),
        plain_lower_text("normal"@),
        plain_lower_text("pixel"@),
{
    reveal_strlit("none");
    reveal_strlit("normal");
    reveal_strlit("pixel");
}

/// The text of a border that parsing can give parses back to the same kind
/// and width.
pub proof fn lemma_border_text_parses(b: Border)
    requires
        is_canonical(b),
    ensures
        border_value(border_text(b)) == Some(b),
{
    lemma_kind_words();
    let t = border_text(b);
    let word: Seq<char> = match b.border {
        NodeBorder::NoBorder => "none"@,
        NodeBorder::Normal => "normal"@,
        NodeBorder::Pixel => "pixel"@,
    };
    let wl = word.len() as int;
    let rest = if b.border == NodeBorder::NoBorder {
        seq![]
    } else {
        width_text(b.width)
    };
    assert(t =~= word + rest);
    assert(!is_white(t[0]));
    assert(skip_white(t, 0) == 0);
    if let Some(w) = b.width {
        lemma_int_text_round_trip(w as int);
    }
    assert(rest.len() > 0 ==> is_white(t[wl])) by {
        if rest.len() > 0 {
            assert(t[wl] == ' ');
        }
    }
    lemma_skip_word_run(t, 0, wl);
    assert(t.subrange(0, wl) =~= word);
    assert(lowered(word) == word);
    match b.width {
        None => {
            assert(t =~= word);
            assert(token_after(t, wl) is None);
        },
        Some(w) => {
            let digits = int_text(w as int);
            assert(t =~= word + seq![' '] + digits);
            assert(skip_white(t, wl + 1) == wl + 1) by {
                assert(t[wl + 1] == digits[0]);
            }
            assert(skip_white(t, wl) == wl + 1);
            assert forall|k: int| wl + 1 <= k < t.len() implies !is_white(#[trigger] t[k]) by {
                assert(t[k] == digits[k - wl - 1]);
            }
            lemma_skip_word_run(t, wl + 1, t.len() as int);
            assert(t.subrange(wl + 1, t.len() as int) =~= digits);
        },
    }
}

/// Parsing a border, writing it as text and parsing that text gives the same
/// kind and width.
pub proof fn lemma_border_round_trip(s: Seq<char>)
    requires
        border_value(s) is Some,
    ensures
        border_value(border_text(border_value(s)->0)) == border_value(s),
{
    lemma_border_text_parses(border_value(s)->0);
}

} // verus!
