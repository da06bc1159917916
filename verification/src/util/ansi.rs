//! Styling text with ANSI escape codes.
use vstd::prelude::*;

use crate::data::grid::{join_chars, join_lines};
use crate::util::text::{chars_of, decimal, string_from_chars, usize_to_chars};

verus! {

/// Dimmed text.
pub const DIM: u32 = 2;

/// Underlined text.
pub const UNDERLINE: u32 = 4;

/// Italicized text.
pub const ITALIC: u32 = 8;

/// Blinking text.
pub const BLINK: u32 = 16;

/// Reversed / inverted text.
pub const REVERSE: u32 = 32;

/// Struck-through text.
pub const STRIKE: u32 = 64;

/// A set of flags to determine text style with ANSI color codes, one bit per flag.
#[derive(Debug, Clone, Copy, PartialEq, Eq, Structural, Hash, Default)]
pub struct AnsiFlags {
    pub bits: u32,
}

/// Whether the flag `flag` is set in `bits`.
pub open spec fn has_flag(bits: u32, flag: u32) -> bool {
    bits & flag == flag
}

impl AnsiFlags {
    /// The empty set of flags.
    pub fn empty() -> (r: Self)
        ensures
            r.bits == 0,
    {
        AnsiFlags { bits: 0 }
    }

    /// Whether no flag is set.
    pub fn is_empty(&self) -> (r: bool)
        ensures
            r == (self.bits == 0),
    {
        self.bits == 0
    }

    /// Whether all the bits of `flag` are set.
    pub fn contains(&self, flag: u32) -> (r: bool)
        ensures
            r == has_flag(self.bits, flag),
    {
        self.bits & flag == flag
    }

    /// Flips the bits of `flag`.
    pub fn toggle(&mut self, flag: u32)
        ensures
            final(self).bits == old(self).bits ^ flag,
    {
        self.bits = self.bits ^ flag;
    }
}

/// Alias for a tuple of 3 bytes representing RGB values.
pub type Rgb = (u8, u8, u8);

/// Type for storing the configuration of an ANSI color code.
#[derive(Debug, Clone, Copy, PartialEq, Eq, Hash)]
pub struct Ansi {
    pub fg: Option<Rgb>,
    pub bg: Option<Rgb>,
    pub flags: AnsiFlags,
}

/// The code `code` of the flag `flag` when it is set in `bits`, else nothing.
pub open spec fn flag_code(bits: u32, flag: u32, code: Seq<char>) -> Seq<Seq<char>> {
    if has_flag(bits, flag) {
        seq![code]
    } else {
        Seq::empty()
    }
}

/// The codes of the flags set in `bits`, in the order dim, italic, underline, blink, reverse,
/// strike.
pub open spec fn flag_codes(bits: u32) -> Seq<Seq<char>> {
    flag_code(bits, DIM, "2"@) + flag_code(bits, ITALIC, "3"@) + flag_code(bits, UNDERLINE, "4"@)
        + flag_code(bits, BLINK, "5"@) + flag_code(bits, REVERSE, "7"@) + flag_code(bits, STRIKE, "9"@)
}

/// The code of a color, if there is one.
pub open spec fn opt_color_code(lead: Seq<char>, c: Option<Rgb>) -> Seq<Seq<char>> {
    match c {
        Some(c) => seq![color_code(lead, c)],
        None => Seq::empty(),
    }
}

/// The code of a color: `lead` (`38` for the foreground, `48` for the background), then `2`
/// and the three components, separated by `;`.
pub open spec fn color_code(lead: Seq<char>, c: Rgb) -> Seq<char> {
    lead + ";2;"@ + decimal(c.0 as nat) + ";"@ + decimal(c.1 as nat) + ";"@ + decimal(c.2 as nat)
}

/// The codes of a style: its flags, then its foreground and its background color.
pub open spec fn style_codes(a: Ansi) -> Seq<Seq<char>> {
    flag_codes(a.flags.bits) + opt_color_code("38"@, a.fg) + opt_color_code("48"@, a.bg)
}

/// The escape sequence of a style: its codes joined by `;` between `ESC [` and `m`, or
/// nothing when it has no codes.
pub open spec fn escape_of(a: Ansi) -> Seq<char> {
    let codes = style_codes(a);
    if codes.len() == 0 {
        Seq::empty()
    } else {
        "\x1b["@ + join_lines(codes, ";"@) + "m"@
    }
}

/// The escape sequence that resets the terminal's styling.
pub open spec fn reset_code() -> Seq<char> {
    "\x1b[0m"@
}

/// `text` styled with `a`: unchanged when empty or when `a` has no styling, else between
/// the escape sequence of `a` and the reset sequence.
pub open spec fn styled(text: Seq<char>, a: Ansi) -> Seq<char> {
    if text.len() == 0 || (a.fg is None && a.bg is None && a.flags.bits == 0) {
        text
    } else {
        escape_of(a) + text + reset_code()
    }
}

/// The characters of the code of a color.
fn color_code_exec(lead: &str, c: Rgb) -> (r: Vec<char>)
    ensures
        r@ == color_code(lead@, c),
{
    let mut out = chars_of(lead);
    let mut part = chars_of(";2;");
    out.append(&mut part);
    let mut part = usize_to_chars(c.0 as usize);
    out.append(&mut part);
    let mut part = chars_of(";");
    out.append(&mut part);
    let mut part = usize_to_chars(c.1 as usize);
    out.append(&mut part);
    let mut part = chars_of(";");
    out.append(&mut part);
    let mut part = usize_to_chars(c.2 as usize);
    out.append(&mut part);
    proof {
        assert(out@ =~= color_code(lead@, c));
    }
    out
}

impl Ansi {
    /// Creates a new / empty / default Ansi instance.
    pub fn new() -> (r: Self)
        ensures
            r.fg is None,
            r.bg is None,
            r.flags.bits == 0,
    {
        Ansi { fg: None, bg: None, flags: AnsiFlags::empty() }
    }

    /// Creates a new / empty / default Ansi instance.
    pub fn empty() -> (r: Self)
        ensures
            r.fg is None,
            r.bg is None,
            r.flags.bits == 0,
    {
        Self::new()
    }

    /// Creates a new Ansi from the given foreground color.
    pub fn from_fg(fg: Rgb) -> (r: Self)
        ensures
            r.fg == Some(fg),
            r.bg is None,
            r.flags.bits == 0,
    {
        Ansi { fg: Some(fg), bg: None, flags: AnsiFlags::empty() }
    }

    /// Creates a new Ansi from the given background color.
    pub fn from_bg(bg: Rgb) -> (r: Self)
        ensures
            r.fg is None,
            r.bg == Some(bg),
            r.flags.bits == 0,
    {
        Ansi { fg: None, bg: Some(bg), flags: AnsiFlags::empty() }
    }

    /// Creates a new Ansi with a red foreground color.
    pub fn red() -> (r: Self)
        ensures
            r.fg == Some((255u8, 0u8, 0u8)),
            r.bg is None,
            r.flags.bits == 0,
    {
        Self::from_fg((255, 0, 0))
    }

    /// Creates a new Ansi with a green foreground color.
    pub fn green() -> (r: Self)
        ensures
            r.fg == Some((0u8, 255u8, 0u8)),
            r.bg is None,
            r.flags.bits == 0,
    {
        Self::from_fg((0, 255, 0))
    }

    /// Creates a new Ansi with a blue foreground color.
    pub fn blue() -> (r: Self)
        ensures
            r.fg == Some((0u8, 0u8, 255u8)),
            r.bg is None,
            r.flags.bits == 0,
    {
        Self::from_fg((0, 0, 255))
    }

    /// Reset the terminal to default styling.
    pub fn reset() -> (r: &'static str)
        ensures
            r@ == reset_code(),
    {
        "\x1b[0m"
    }

    /// Clear the Ansi object entirely.
    pub fn clear(self) -> (r: Self)
        ensures
            r.fg is None,
            r.bg is None,
            r.flags.bits == 0,
    {
        Ansi { fg: None, bg: None, flags: AnsiFlags::empty() }
    }

    /// Returns `true` if this `Ansi` has no styling.
    pub fn is_default(&self) -> (r: bool)
        ensures
            r == (self.fg is None && self.bg is None && self.flags.bits == 0),
    {
        self.fg.is_none() && self.bg.is_none() && self.flags.is_empty()
    }

    /// Builder function to set the foreground color.
    pub fn fg(self, fg: Rgb) -> (r: Self)
        ensures
            r == (Ansi { fg: Some(fg), ..self }),
    {
        Ansi { fg: Some(fg), ..self }
    }

    /// Builder function to clear the foreground color.
    pub fn clear_fg(self) -> (r: Self)
        ensures
            r == (Ansi { fg: None, ..self }),
    {
        Ansi { fg: None, ..self }
    }

    /// Builder function to set the background color.
    pub fn bg(self, bg: Rgb) -> (r: Self)
        ensures
            r == (Ansi { bg: Some(bg), ..self }),
    {
        Ansi { bg: Some(bg), ..self }
    }

    /// Builder function to clear the background color.
    pub fn clear_bg(self) -> (r: Self)
        ensures
            r == (Ansi { bg: None, ..self }),
    {
        Ansi { bg: None, ..self }
    }

    /// `self` with the flag `flag` flipped.
    fn toggled(self, flag: u32) -> (r: Self)
        ensures
            r == (Ansi { flags: AnsiFlags { bits: self.flags.bits ^ flag }, ..self }),
    {
        let mut flags = self.flags;
        flags.toggle(flag);
        Ansi { flags, ..self }
    }

    /// Builder function to set or clear whether the color is dimmed.
    pub fn dim(self) -> (r: Self)
        ensures
            r == (Ansi { flags: AnsiFlags { bits: self.flags.bits ^ DIM }, ..self }),
    {
        self.toggled(DIM)
    }

    /// Builder function to set or clear whether the color is underlined.
    pub fn underline(self) -> (r: Self)
        ensures
            r == (Ansi { flags: AnsiFlags { bits: self.flags.bits ^ UNDERLINE }, ..self }),
    {
        self.toggled(UNDERLINE)
    }

    /// Builder function to set or clear whether the color is italic.
    pub fn italic(self) -> (r: Self)
        ensures
            r == (Ansi { flags: AnsiFlags { bits: self.flags.bits ^ ITALIC }, ..self }),
    {
        self.toggled(ITALIC)
    }

    /// Builder function to set or clear whether the color is blinking.
    pub fn blink(self) -> (r: Self)
        ensures
            r == (Ansi { flags: AnsiFlags { bits: self.flags.bits ^ BLINK }, ..self }),
    {
        self.toggled(BLINK)
    }

    /// Builder function to set or clear whether the color is inversed / reversed.
    pub fn reverse(self) -> (r: Self)
        ensures
            r == (Ansi { flags: AnsiFlags { bits: self.flags.bits ^ REVERSE }, ..self }),
    {
        self.toggled(REVERSE)
    }

    /// Builder function to set or clear whether the color is struck through.
    pub fn strike(self) -> (r: Self)
        ensures
            r == (Ansi { flags: AnsiFlags { bits: self.flags.bits ^ STRIKE }, ..self }),
    {
        self.toggled(STRIKE)
    }
}


/// Appends `code` to the codes joined so far in `acc`, with a `;` before it unless it is the
/// first one.
fn push_code(acc: &mut Vec<char>, code: &str, first: bool, Ghost(codes): Ghost<Seq<Seq<char>>>)
    requires
        old(acc)@ == join_lines(codes, ";"@),
        first == (codes.len() == 0),
    ensures
        final(acc)@ == join_lines(codes.push(code@), ";"@),
{
    let mut part = if first {
        chars_of(code)
    } else {
        let mut p = chars_of(";");
        let mut c = chars_of(code);
        p.append(&mut c);
        p
    };
    proof {
        assert(codes.push(code@).drop_last() =~= codes);
    }
    acc.append(&mut part);
    proof {
        if codes.len() == 0 {
            assert(acc@ =~= join_lines(codes.push(code@), ";"@));
        } else {
            assert(acc@ =~= join_lines(codes, ";"@) + ";"@ + code@);
        }
    }
}

/// Appends the code of color `c`, led by `lead`, like [`push_code`].
fn push_color(acc: &mut Vec<char>, lead: &str, c: Rgb, first: bool, Ghost(codes): Ghost<Seq<Seq<char>>>)
    requires
        old(acc)@ == join_lines(codes, ";"@),
        first == (codes.len() == 0),
    ensures
        final(acc)@ == join_lines(codes.push(color_code(lead@, c)), ";"@),
{
    let code = color_code_exec(lead, c);
    let mut part = if first {
        code
    } else {
        let mut p = chars_of(";");
        let mut cc = code;
        p.append(&mut cc);
        p
    };
    let ghost cv = color_code(lead@, c);
    proof {
        assert(codes.push(cv).drop_last() =~= codes);
    }
    acc.append(&mut part);
    proof {
        if codes.len() == 0 {
            assert(acc@ =~= join_lines(codes.push(cv), ";"@));
        } else {
            assert(acc@ =~= join_lines(codes, ";"@) + ";"@ + cv);
        }
    }
}

/// Appends the code of `flag` to the codes joined so far in `acc` when it is set in `flags`,
/// and gives the codes joined afterwards.
fn push_flag(
    acc: &mut Vec<char>,
    modified: &mut bool,
    flags: AnsiFlags,
    flag: u32,
    code: &str,
    Ghost(codes): Ghost<Seq<Seq<char>>>,
) -> (after: Ghost<Seq<Seq<char>>>)
    requires
        old(acc)@ == join_lines(codes, ";"@),
        *old(modified) == (codes.len() > 0),
    ensures
        after@ == codes + flag_code(flags.bits, flag, code@),
        final(acc)@ == join_lines(after@, ";"@),
        *final(modified) == (after@.len() > 0),
{
    if flags.contains(flag) {
        push_code(acc, code, !*modified, Ghost(codes));
        *modified = true;
        proof {
            assert(codes + flag_code(flags.bits, flag, code@) =~= codes.push(code@));
        }
    } else {
        proof {
            assert(codes + flag_code(flags.bits, flag, code@) =~= codes);
        }
    }
    Ghost(codes + flag_code(flags.bits, flag, code@))
}

/// Appends the code of color `c`, if there is one, like [`push_flag`].
fn push_opt_color(
    acc: &mut Vec<char>,
    modified: &mut bool,
    lead: &str,
    c: Option<Rgb>,
    Ghost(codes): Ghost<Seq<Seq<char>>>,
) -> (after: Ghost<Seq<Seq<char>>>)
    requires
        old(acc)@ == join_lines(codes, ";"@),
        *old(modified) == (codes.len() > 0),
    ensures
        after@ == codes + opt_color_code(lead@, c),
        final(acc)@ == join_lines(after@, ";"@),
        *final(modified) == (after@.len() > 0),
{
    match c {
        Some(col) => {
            push_color(acc, lead, col, !*modified, Ghost(codes));
            *modified = true;
            proof {
                assert(codes + opt_color_code(lead@, c) =~= codes.push(color_code(lead@, col)));
            }
        },
        None => {
            proof {
                assert(codes + opt_color_code(lead@, c) =~= codes);
            }
        },
    }
    Ghost(codes + opt_color_code(lead@, c))
}

/// Adds the code of `flag` to `codes` when it is set in `flags`.
fn collect_flag(codes: &mut Vec<Vec<char>>, flags: AnsiFlags, flag: u32, code: &str)
    ensures
        final(codes)@.map_values(|l: Vec<char>| l@) == old(codes)@.map_values(|l: Vec<char>| l@)
            + flag_code(flags.bits, flag, code@),
{
    if flags.contains(flag) {
        codes.push(chars_of(code));
    }
    proof {
        assert(final(codes)@.map_values(|l: Vec<char>| l@) =~= old(codes)@.map_values(
            |l: Vec<char>| l@,
        ) + flag_code(flags.bits, flag, code@));
    }
}

/// Adds the code of color `c`, if there is one, to `codes`.
fn collect_color(codes: &mut Vec<Vec<char>>, lead: &str, c: Option<Rgb>)
    ensures
        final(codes)@.map_values(|l: Vec<char>| l@) == old(codes)@.map_values(|l: Vec<char>| l@)
            + opt_color_code(lead@, c),
{
    match c {
        Some(col) => {
            codes.push(color_code_exec(lead, col));
        },
        None => {},
    }
    proof {
        assert(final(codes)@.map_values(|l: Vec<char>| l@) =~= old(codes)@.map_values(
            |l: Vec<char>| l@,
        ) + opt_color_code(lead@, c));
    }
}

/// Wraps the joined codes in `ESC [` and `m`, or gives nothing when there are no codes.
fn wrap_codes(joined: Vec<char>, any: bool, Ghost(codes): Ghost<Seq<Seq<char>>>) -> (r: String)
    requires
        joined@ == join_lines(codes, ";"@),
        any == (codes.len() > 0),
    ensures
        r@ == (if codes.len() == 0 {
            Seq::<char>::empty()
        } else {
            "\x1b["@ + join_lines(codes, ";"@) + "m"@
        }),
{
    if !any {
        let e: Vec<char> = Vec::new();
        proof {
            assert(e@ =~= Seq::<char>::empty());
        }
        return string_from_chars(&e);
    }
    let mut out = chars_of("\x1b[");
    let mut j = joined;
    out.append(&mut j);
    let mut m = chars_of("m");
    out.append(&mut m);
    string_from_chars(&out)
}

impl Ansi {
    /// Creates the escape sequence of this `Ansi`, building it up in one string.
    pub fn build_string(&self) -> (r: String)
        ensures
            r@ == escape_of(*self),
    {
        let mut ansi: Vec<char> = Vec::new();
        let mut modified = false;
        let bits = self.flags.bits;
        let ghost c0 = Seq::<Seq<char>>::empty();
        proof {
            assert(ansi@ =~= join_lines(c0, ";"@));
        }
        let Ghost(c1) = push_flag(&mut ansi, &mut modified, self.flags, DIM, "2", Ghost(c0));
        let Ghost(c2) = push_flag(&mut ansi, &mut modified, self.flags, ITALIC, "3", Ghost(c1));
        let Ghost(c3) = push_flag(&mut ansi, &mut modified, self.flags, UNDERLINE, "4", Ghost(c2));
        let Ghost(c4) = push_flag(&mut ansi, &mut modified, self.flags, BLINK, "5", Ghost(c3));
        let Ghost(c5) = push_flag(&mut ansi, &mut modified, self.flags, REVERSE, "7", Ghost(c4));
        let Ghost(c6) = push_flag(&mut ansi, &mut modified, self.flags, STRIKE, "9", Ghost(c5));
        let Ghost(c7) = push_opt_color(&mut ansi, &mut modified, "38", self.fg, Ghost(c6));
        let Ghost(c8) = push_opt_color(&mut ansi, &mut modified, "48", self.bg, Ghost(c7));
        proof {
            assert(c8 =~= style_codes(*self));
        }
        wrap_codes(ansi, modified, Ghost(c8))
    }

    /// Creates the escape sequence of this `Ansi`, collecting its codes in a `Vec` first.
    pub fn build_vec(&self) -> (r: String)
        ensures
            r@ == escape_of(*self),
    {
        let mut codes: Vec<Vec<char>> = Vec::new();
        proof {
            assert(codes@.map_values(|l: Vec<char>| l@) =~= Seq::<Seq<char>>::empty());
        }
        collect_flag(&mut codes, self.flags, DIM, "2");
        collect_flag(&mut codes, self.flags, ITALIC, "3");
        collect_flag(&mut codes, self.flags, UNDERLINE, "4");
        collect_flag(&mut codes, self.flags, BLINK, "5");
        collect_flag(&mut codes, self.flags, REVERSE, "7");
        collect_flag(&mut codes, self.flags, STRIKE, "9");
        collect_color(&mut codes, "38", self.fg);
        collect_color(&mut codes, "48", self.bg);
        let ghost views = codes@.map_values(|l: Vec<char>| l@);
        proof {
            assert(views =~= style_codes(*self));
        }
        let sep = chars_of(";");
        let joined = join_chars(&codes, &sep);
        let any = codes.len() > 0;
        wrap_codes(joined, any, Ghost(views))
    }

    /// The escape sequence of this `Ansi`, as it is displayed.
    pub fn to_string(&self) -> (r: String)
        ensures
            r@ == escape_of(*self),
    {
        self.build_string()
    }
}

impl Default for Ansi {
    fn default() -> (r: Self)
        ensures
            r.fg is None,
            r.bg is None,
            r.flags.bits == 0,
    {
        Self::empty()
    }
}

/// Something that gives a style: an [`Ansi`] itself, or a function that makes one.
pub trait IntoAnsi: Sized {
    /// Whether the style can be taken.
    spec fn ready(&self) -> bool;

    /// Whether `a` is a style that taking it may give.
    spec fn gives(&self, a: Ansi) -> bool;

    /// Takes the style.
    fn to_ansi(self) -> (r: Ansi)
        requires
            self.ready(),
        ensures
            self.gives(r),
    ;
}

impl IntoAnsi for Ansi {
    open spec fn ready(&self) -> bool {
        true
    }

    open spec fn gives(&self, a: Ansi) -> bool {
        a == *self
    }

    fn to_ansi(self) -> (r: Ansi) {
        self
    }
}

impl<T: Fn() -> Ansi> IntoAnsi for T {
    open spec fn ready(&self) -> bool {
        call_requires(*self, ())
    }

    open spec fn gives(&self, a: Ansi) -> bool {
        call_ensures(*self, (), a)
    }

    fn to_ansi(self) -> (r: Ansi) {
        self()
    }
}

/// Styles `text` using the style described by `style`: the text is returned unchanged when it
/// is empty or the style has no styling; otherwise it stands between the style's escape
/// sequence and the reset sequence.
pub fn style_text<S: IntoAnsi>(text: &str, style: S) -> (r: String)
    requires
        text@.len() > 0 ==> style.ready(),
    ensures
        text@.len() == 0 ==> r@ == text@,
        text@.len() > 0 ==> exists|a: Ansi| style.gives(a) && r@ == styled(text@, a),
{
    let actual = chars_of(text);
    if actual.len() == 0 {
        return string_from_chars(&actual);
    }
    let ghost st = style;
    let ansi = style.to_ansi();
    if ansi.is_default() {
        proof {
            assert(st.gives(ansi) && actual@ == styled(text@, ansi));
        }
        string_from_chars(&actual)
    } else {
        let code = ansi.build_string();
        let mut out = chars_of(code.as_str());
        let mut t = actual;
        out.append(&mut t);
        let mut reset = chars_of(Ansi::reset());
        out.append(&mut reset);
        proof {
            assert(out@ =~= styled(text@, ansi));
            assert(st.gives(ansi) && out@ == styled(text@, ansi));
        }
        string_from_chars(&out)
    }
}

/// Each flag builder toggles its flag: applying it twice gives back the style.
pub proof fn lemma_flag_toggle_twice(a: Ansi, flag: u32)
    ensures
        (Ansi { flags: AnsiFlags { bits: (a.flags.bits ^ flag) ^ flag }, ..a }) == a,
{
    let b = a.flags.bits;
    assert((b ^ flag) ^ flag == b) by (bit_vector);
}

/// A style with no styling leaves text as it is, and styling empty text gives empty text.
pub proof fn lemma_unstyled_text(text: Seq<char>, a: Ansi)
    ensures
        (a.fg is None && a.bg is None && a.flags.bits == 0) ==> styled(text, a) == text,
        styled(Seq::empty(), a) == Seq::<char>::empty(),
{
}

/// A style with no styling has no escape sequence, and one with styling has a non-empty one
/// wrapped in `ESC [` and `m`.
pub proof fn lemma_escape_empty_iff_no_codes(a: Ansi)
    ensures
        (escape_of(a).len() == 0) <==> (style_codes(a).len() == 0),
        (a.fg is None && a.bg is None && a.flags.bits == 0) ==> escape_of(a).len() == 0,
{
    assert(flag_codes(0) =~= Seq::<Seq<char>>::empty()) by {
        assert(!has_flag(0, DIM)) by (bit_vector);
        assert(!has_flag(0, ITALIC)) by (bit_vector);
        assert(!has_flag(0, UNDERLINE)) by (bit_vector);
        assert(!has_flag(0, BLINK)) by (bit_vector);
        assert(!has_flag(0, REVERSE)) by (bit_vector);
        assert(!has_flag(0, STRIKE)) by (bit_vector);
    }
    reveal_strlit("\x1b[");
}

/// The style that sets the single flag `flag` and no color.
pub open spec fn only_flag(flag: u32) -> Ansi {
    Ansi { fg: None, bg: None, flags: AnsiFlags { bits: flag } }
}

/// Each flag is set in its own bits and in none of the other flags' bits.
proof fn lemma_flag_bits()
    by (bit_vector)
    ensures
        has_flag(DIM, DIM),
        !has_flag(DIM, ITALIC),
        !has_flag(DIM, UNDERLINE),
        !has_flag(DIM, BLINK),
        !has_flag(DIM, REVERSE),
        !has_flag(DIM, STRIKE),
        !has_flag(ITALIC, DIM),
        has_flag(ITALIC, ITALIC),
        !has_flag(ITALIC, UNDERLINE),
        !has_flag(ITALIC, BLINK),
        !has_flag(ITALIC, REVERSE),
        !has_flag(ITALIC, STRIKE),
        !has_flag(UNDERLINE, DIM),
        !has_flag(UNDERLINE, ITALIC),
        has_flag(UNDERLINE, UNDERLINE),
        !has_flag(UNDERLINE, BLINK),
        !has_flag(UNDERLINE, REVERSE),
        !has_flag(UNDERLINE, STRIKE),
        !has_flag(BLINK, DIM),
        !has_flag(BLINK, ITALIC),
        !has_flag(BLINK, UNDERLINE),
        has_flag(BLINK, BLINK),
        !has_flag(BLINK, REVERSE),
        !has_flag(BLINK, STRIKE),
        !has_flag(REVERSE, DIM),
        !has_flag(REVERSE, ITALIC),
        !has_flag(REVERSE, UNDERLINE),
        !has_flag(REVERSE, BLINK),
        has_flag(REVERSE, REVERSE),
        !has_flag(REVERSE, STRIKE),
        !has_flag(STRIKE, DIM),
        !has_flag(STRIKE, ITALIC),
        !has_flag(STRIKE, UNDERLINE),
        !has_flag(STRIKE, BLINK),
        !has_flag(STRIKE, REVERSE),
        has_flag(STRIKE, STRIKE),
{
}

/// A style made of a single flag and no color escapes as `ESC [`, the flag's standard SGR
/// code and `m`: dim 2, italic 3, underline 4, blink 5, reverse 7, strike 9.
pub proof fn lemma_single_flag_escapes()
    ensures
        escape_of(only_flag(DIM)) == seq!['\x1b', '[', '2', 'm'],
        escape_of(only_flag(ITALIC)) == seq!['\x1b', '[', '3', 'm'],
        escape_of(only_flag(UNDERLINE)) == seq!['\x1b', '[', '4', 'm'],
        escape_of(only_flag(BLINK)) == seq!['\x1b', '[', '5', 'm'],
        escape_of(only_flag(REVERSE)) == seq!['\x1b', '[', '7', 'm'],
        escape_of(only_flag(STRIKE)) == seq!['\x1b', '[', '9', 'm'],
{
    lemma_flag_bits();
    reveal_strlit("\x1b[");
    reveal_strlit("m");
    reveal_strlit("2");
    assert(flag_codes(DIM) =~= seq!["2"@]);
    assert(style_codes(only_flag(DIM)) =~= seq!["2"@]);
    assert(escape_of(only_flag(DIM)) =~= seq!['\x1b', '[', '2', 'm']);
    reveal_strlit("3");
    assert(flag_codes(ITALIC) =~= seq!["3"@]);
    assert(style_codes(only_flag(ITALIC)) =~= seq!["3"@]);
    assert(escape_of(only_flag(ITALIC)) =~= seq!['\x1b', '[', '3', 'm']);
    reveal_strlit("4");
    assert(flag_codes(UNDERLINE) =~= seq!["4"@]);
    assert(style_codes(only_flag(UNDERLINE)) =~= seq!["4"@]);
    assert(escape_of(only_flag(UNDERLINE)) =~= seq!['\x1b', '[', '4', 'm']);
    reveal_strlit("5");
    assert(flag_codes(BLINK) =~= seq!["5"@]);
    assert(style_codes(only_flag(BLINK)) =~= seq!["5"@]);
    assert(escape_of(only_flag(BLINK)) =~= seq!['\x1b', '[', '5', 'm']);
    reveal_strlit("7");
    assert(flag_codes(REVERSE) =~= seq!["7"@]);
    assert(style_codes(only_flag(REVERSE)) =~= seq!["7"@]);
    assert(escape_of(only_flag(REVERSE)) =~= seq!['\x1b', '[', '7', 'm']);
    reveal_strlit("9");
    assert(flag_codes(STRIKE) =~= seq!["9"@]);
    assert(style_codes(only_flag(STRIKE)) =~= seq!["9"@]);
    assert(escape_of(only_flag(STRIKE)) =~= seq!['\x1b', '[', '9', 'm']);
}

/// Text styled with the reverse flag alone stands between `ESC [ 7 m` and `ESC [ 0 m`.
pub proof fn lemma_reverse_styled(text: Seq<char>)
    requires
        text.len() > 0,
    ensures
        styled(text, only_flag(REVERSE)) == seq!['\x1b', '[', '7', 'm'] + text + seq!['\x1b', '[', '0', 'm'],
{
    lemma_single_flag_escapes();
    lemma_flag_bits();
    reveal_strlit("\x1b[0m");
    assert(reset_code() =~= seq!['\x1b', '[', '0', 'm']);
}

} // verus!
