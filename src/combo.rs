//! Combo commands, and the line format in which combos are authored.
//!
//! Each line reads `KEY,CHARACTER,SKILL_TYPE,MEMO|`. `KEY` is a digit for a
//! tap, `U` and a digit for a hold, `E` for the chain attack and `L` for the
//! heavy attack; a key that starts with `#` marks a title line. A line that
//! starts with `!!!!!` ends nothing but is skipped, as are blank lines.

use vstd::prelude::*;

verus! {

/// How a command's key must be actuated.
#[derive(Debug, Clone, Copy, PartialEq, Eq, Structural)]
pub enum InputType {
    /// Completed as soon as the key goes down.
    Tap,
    /// Completed once the key has stayed down for the given time.
    Hold { duration_ms: u64 },
}

impl Default for InputType {
    fn default() -> (r: Self)
        ensures
            r == InputType::Tap,
    {
        InputType::Tap
    }
}

/// The abstract action a command asks for.
#[derive(Debug, Clone, Copy, PartialEq, Eq, Structural)]
pub enum KeyIdentifier {
    /// A numbered skill slot.
    Number(u8),
    /// The chain (link) attack.
    Chain,
    /// The heavy attack.
    HeavyAttack,
    /// The primary mouse button.
    MouseLeft,
}

/// One step of a combo.
#[derive(Debug, Clone)]
pub struct ComboCommand {
    pub key: KeyIdentifier,
    pub input_type: InputType,
    pub character: String,
    pub skill_type: String,
    pub memo: String,
    /// A title line carries a heading, not an action.
    pub is_title: bool,
}

/// What a [`ComboCommand`] holds, with its texts as character sequences.
pub struct CommandView {
    pub key: KeyIdentifier,
    pub input_type: InputType,
    pub character: Seq<char>,
    pub skill_type: Seq<char>,
    pub memo: Seq<char>,
    pub is_title: bool,
}

impl View for ComboCommand {
    type V = CommandView;

    open spec fn view(&self) -> CommandView {
        CommandView {
            key: self.key,
            input_type: self.input_type,
            character: self.character@,
            skill_type: self.skill_type@,
            memo: self.memo@,
            is_title: self.is_title,
        }
    }
}

impl ComboCommand {
    /// Whether the command asks for a hold.
    pub open spec fn spec_requires_hold(&self) -> bool {
        self.input_type is Hold
    }

    /// A copy of the command, texts included.
    pub fn duplicate(&self) -> (r: ComboCommand)
        ensures
            r@ == self@,
    {
        ComboCommand {
            key: self.key,
            input_type: self.input_type,
            character: self.character.clone(),
            skill_type: self.skill_type.clone(),
            memo: self.memo.clone(),
            is_title: self.is_title,
        }
    }
}

/// A parsed combo: its title and its commands, title lines included.
#[derive(Debug, Clone)]
pub struct ComboFile {
    pub title: String,
    pub commands: Vec<ComboCommand>,
}

/// What a [`ComboFile`] holds.
pub struct ComboFileView {
    pub title: Seq<char>,
    pub commands: Seq<CommandView>,
}

/// The views of a list of commands.
pub open spec fn commands_view(cmds: Seq<ComboCommand>) -> Seq<CommandView> {
    cmds.map_values(|c: ComboCommand| c@)
}

impl View for ComboFile {
    type V = ComboFileView;

    open spec fn view(&self) -> ComboFileView {
        ComboFileView { title: self.title@, commands: commands_view(self.commands@) }
    }
}

// ---------------------------------------------------------------------------
// Text, as sequences of characters.

/// Unicode white space, as `char::is_whitespace` defines it.
pub open spec fn is_ws(c: char) -> bool {
    let u = c as u32;
    (0x09 <= u && u <= 0x0d) || u == 0x20 || u == 0x85 || u == 0xa0 || u == 0x1680 || (0x2000
        <= u && u <= 0x200a) || u == 0x2028 || u == 0x2029 || u == 0x202f || u == 0x205f || u
        == 0x3000
}

/// The text without its leading white space.
pub open spec fn trim_start(s: Seq<char>) -> Seq<char>
    decreases s.len(),
{
    if s.len() > 0 && is_ws(s[0]) {
        trim_start(s.drop_first())
    } else {
        s
    }
}

/// The text without its trailing white space.
pub open spec fn trim_end(s: Seq<char>) -> Seq<char>
    decreases s.len(),
{
    if s.len() > 0 && is_ws(s.last()) {
        trim_end(s.drop_last())
    } else {
        s
    }
}

/// The text without white space at either end.
pub open spec fn trim(s: Seq<char>) -> Seq<char> {
    trim_end(trim_start(s))
}

/// The text without the `|` characters that end it.
pub open spec fn trim_pipes(s: Seq<char>) -> Seq<char>
    decreases s.len(),
{
    if s.len() > 0 && s.last() == '|' {
        trim_pipes(s.drop_last())
    } else {
        s
    }
}

/// Where the first `c` stands in the text, or its length if there is none.
pub open spec fn first_of(s: Seq<char>, c: char) -> nat
    decreases s.len(),
{
    if s.len() == 0 {
        0
    } else if s[0] == c {
        0
    } else {
        1 + first_of(s.drop_first(), c)
    }
}

/// The `k`-th comma-separated field of the text, empty if there are fewer.
pub open spec fn field(s: Seq<char>, k: nat) -> Seq<char>
    decreases k,
{
    let p = first_of(s, ',');
    if k == 0 {
        s.take(p as int)
    } else if p < s.len() {
        field(s.skip(p as int + 1), (k - 1) as nat)
    } else {
        Seq::empty()
    }
}

/// The lines of a text, as `str::lines` splits it: at each `\n`, with a
/// `\r` before it dropped, and no empty line after a final `\n`.
pub open spec fn lines_of(s: Seq<char>) -> Seq<Seq<char>>
    decreases s.len(),
{
    if s.len() == 0 {
        Seq::empty()
    } else {
        let p = first_of(s, '\n');
        if p < s.len() {
            let line = s.take(p as int);
            let line = if line.len() > 0 && line.last() == '\r' {
                line.drop_last()
            } else {
                line
            };
            seq![line] + lines_of(s.skip(p as int + 1))
        } else {
            seq![s]
        }
    }
}

/// An ASCII decimal digit.
pub open spec fn is_digit(c: char) -> bool {
    '0' <= c && c <= '9'
}

/// The value of a string of decimal digits.
pub open spec fn digits_value(s: Seq<char>) -> nat
    decreases s.len(),
{
    if s.len() == 0 {
        0
    } else {
        digits_value(s.drop_last()) * 10 + ((s.last() as u32) - ('0' as u32)) as nat
    }
}

/// The text without the `+` that may start it.
pub open spec fn unsigned_part(s: Seq<char>) -> Seq<char> {
    if s.len() > 0 && s[0] == '+' {
        s.drop_first()
    } else {
        s
    }
}

/// Every character is a decimal digit.
pub open spec fn all_digits(s: Seq<char>) -> bool {
    forall|i: int| 0 <= i < s.len() ==> is_digit(#[trigger] s[i])
}

/// A `u8` as `str::parse` reads it: an optional `+`, then one or more
/// decimal digits, of value at most 255.
pub open spec fn parse_u8_spec(s: Seq<char>) -> Option<u8> {
    let d = unsigned_part(s);
    if d.len() > 0 && all_digits(d) && digits_value(d) <= 255 {
        Some(digits_value(d) as u8)
    } else {
        None
    }
}

/// The decimal digit for a value below ten.
pub open spec fn digit_char(d: nat) -> char {
    if d == 0 {
        '0'
    } else if d == 1 {
        '1'
    } else if d == 2 {
        '2'
    } else if d == 3 {
        '3'
    } else if d == 4 {
        '4'
    } else if d == 5 {
        '5'
    } else if d == 6 {
        '6'
    } else if d == 7 {
        '7'
    } else if d == 8 {
        '8'
    } else {
        '9'
    }
}

/// A number written in decimal.
pub open spec fn decimal(n: nat) -> Seq<char>
    decreases n,
{
    if n < 10 {
        seq![digit_char(n)]
    } else {
        decimal(n / 10).push(digit_char(n % 10))
    }
}

/// What `str::to_uppercase` makes of a text.
pub uninterp spec fn upper_of(s: Seq<char>) -> Seq<char>;

/// Relies on `str::to_uppercase`, whose result depends on the characters
/// of its argument alone.
#[verifier::external_body]
fn to_upper(s: &str) -> (r: String)
    ensures
        r@ == upper_of(s@),
{
    s.to_uppercase()
}

// ---------------------------------------------------------------------------
// Keys.

/// The key named by a trimmed key text whose upper-case form is `upper`:
/// a digit from 1 to 9 is a numbered slot, `E` the chain attack and `L` the
/// heavy attack.
pub open spec fn key_of(trimmed: Seq<char>, upper: Seq<char>) -> Option<KeyIdentifier> {
    let n = parse_u8_spec(trimmed);
    if n is Some && 1 <= n->0 && n->0 <= 9 {
        Some(KeyIdentifier::Number(n->0))
    } else if upper == seq!['E'] {
        Some(KeyIdentifier::Chain)
    } else if upper == seq!['L'] {
        Some(KeyIdentifier::HeavyAttack)
    } else {
        None
    }
}

/// The key named by a key text, white space around it ignored.
pub open spec fn key_of_text(s: Seq<char>) -> Option<KeyIdentifier> {
    key_of(trim(s), upper_of(trim(s)))
}

impl KeyIdentifier {
    /// Reads a key from its text, white space around it ignored.
    pub fn from_str(s: &str) -> (r: Option<Self>)
        ensures
            r == key_of_text(s@),
    {
        let v = chars_of(s);
        let (a, b) = trim_range(&v, 0, v.len());
        proof {
            assert(v@.subrange(0, v@.len() as int) =~= v@);
        }
        let t = s.substring_char(a, b);
        let upper = to_upper(t);
        Self::from_parts(t, upper.as_str())
    }

    /// Reads a key from its trimmed text and the upper-case form of it.
    pub fn from_parts(trimmed: &str, upper: &str) -> (r: Option<Self>)
        ensures
            r == key_of(trimmed@, upper@),
    {
        let v = chars_of(trimmed);
        if let Some(n) = parse_u8(&v) {
            if 1 <= n && n <= 9 {
                return Some(KeyIdentifier::Number(n));
            }
        }
        if upper.unicode_len() == 1 {
            let c = upper.get_char(0);
            if c == 'E' {
                proof {
                    assert(upper@ =~= seq!['E']);
                }
                return Some(KeyIdentifier::Chain);
            }
            if c == 'L' {
                proof {
                    assert(upper@ =~= seq!['L']);
                }
                return Some(KeyIdentifier::HeavyAttack);
            }
            proof {
                assert(upper@ != seq!['E'] && upper@ != seq!['L']) by {
                    if upper@ == seq!['E'] {
                        assert(upper@[0] == 'E');
                    }
                    if upper@ == seq!['L'] {
                        assert(upper@[0] == 'L');
                    }
                }
            }
        }
        None
    }
}

// ---------------------------------------------------------------------------
// Scanning.

/// The characters of a text.
fn chars_of(s: &str) -> (v: Vec<char>)
    ensures
        v@ == s@,
{
    let n = s.unicode_len();
    let mut v: Vec<char> = Vec::new();
    let mut i: usize = 0;
    while i < n
        invariant
            n == s@.len(),
            i <= n,
            v@ == s@.subrange(0, i as int),
        decreases n - i,
    {
        v.push(s.get_char(i));
        proof {
            assert(v@ =~= s@.subrange(0, i as int + 1));
        }
        i += 1;
    }
    proof {
        assert(v@ =~= s@);
    }
    v
}

/// Whether a character is white space.
fn is_whitespace(c: char) -> (r: bool)
    ensures
        r == is_ws(c),
{
    let u = c as u32;
    (0x09 <= u && u <= 0x0d) || u == 0x20 || u == 0x85 || u == 0xa0 || u == 0x1680 || (0x2000
        <= u && u <= 0x200a) || u == 0x2028 || u == 0x2029 || u == 0x202f || u == 0x205f || u
        == 0x3000
}

/// The bounds of the trimmed text between `a` and `b`.
fn trim_range(v: &Vec<char>, a: usize, b: usize) -> (r: (usize, usize))
    requires
        a <= b <= v@.len(),
    ensures
        a <= r.0 <= r.1 <= b,
        v@.subrange(r.0 as int, r.1 as int) == trim(v@.subrange(a as int, b as int)),
{
    let mut i = a;
    while i < b && is_whitespace(v[i])
        invariant
            a <= i <= b <= v@.len(),
            trim_start(v@.subrange(a as int, b as int)) == trim_start(
                v@.subrange(i as int, b as int),
            ),
        decreases b - i,
    {
        proof {
            assert(v@.subrange(i as int, b as int).drop_first() =~= v@.subrange(
                i as int + 1,
                b as int,
            ));
        }
        i += 1;
    }
    let mut j = b;
    while j > i && is_whitespace(v[j - 1])
        invariant
            i <= j <= b <= v@.len(),
            trim_end(v@.subrange(i as int, b as int)) == trim_end(v@.subrange(i as int, j as int)),
        decreases j - i,
    {
        proof {
            assert(v@.subrange(i as int, j as int).drop_last() =~= v@.subrange(
                i as int,
                j as int - 1,
            ));
        }
        j -= 1;
    }
    (i, j)
}

/// The end of the text between `a` and `b` without its trailing `|`s.
fn trim_pipes_end(v: &Vec<char>, a: usize, b: usize) -> (r: usize)
    requires
        a <= b <= v@.len(),
    ensures
        a <= r <= b,
        v@.subrange(a as int, r as int) == trim_pipes(v@.subrange(a as int, b as int)),
{
    let mut j = b;
    while j > a && v[j - 1] == '|'
        invariant
            a <= j <= b <= v@.len(),
            trim_pipes(v@.subrange(a as int, b as int)) == trim_pipes(
                v@.subrange(a as int, j as int),
            ),
        decreases j - a,
    {
        proof {
            assert(v@.subrange(a as int, j as int).drop_last() =~= v@.subrange(
                a as int,
                j as int - 1,
            ));
        }
        j -= 1;
    }
    j
}

/// Where the first `c` at or after `a` stands before `b`, or `b`.
fn find_char(v: &Vec<char>, a: usize, b: usize, c: char) -> (r: usize)
    requires
        a <= b <= v@.len(),
    ensures
        a <= r <= b,
        r == a + first_of(v@.subrange(a as int, b as int), c),
{
    let mut i = a;
    while i < b && v[i] != c
        invariant
            a <= i <= b <= v@.len(),
            first_of(v@.subrange(a as int, b as int), c) == (i - a) + first_of(
                v@.subrange(i as int, b as int),
                c,
            ),
        decreases b - i,
    {
        proof {
            assert(v@.subrange(i as int, b as int).drop_first() =~= v@.subrange(
                i as int + 1,
                b as int,
            ));
        }
        i += 1;
    }
    i
}

/// The bounds of the `k`-th comma-separated field of the text between `a`
/// and `b`.
fn field_range(v: &Vec<char>, a: usize, b: usize, k: usize) -> (r: (usize, usize))
    requires
        a <= b <= v@.len(),
    ensures
        a <= r.0 <= r.1 <= b,
        v@.subrange(r.0 as int, r.1 as int) == field(v@.subrange(a as int, b as int), k as nat),
{
    let mut start = a;
    let mut j: usize = 0;
    while j < k
        invariant
            a <= start <= b <= v@.len(),
            j <= k,
            field(v@.subrange(a as int, b as int), k as nat) == field(
                v@.subrange(start as int, b as int),
                (k - j) as nat,
            ),
        decreases k - j,
    {
        let c = find_char(v, start, b, ',');
        let ghost sub = v@.subrange(start as int, b as int);
        if c < b {
            proof {
                assert(sub.skip(c - start + 1) =~= v@.subrange(c as int + 1, b as int));
            }
            start = c + 1;
        } else {
            proof {
                assert(v@.subrange(b as int, b as int) =~= Seq::<char>::empty());
            }
            return (b, b);
        }
        j += 1;
    }
    let c = find_char(v, start, b, ',');
    proof {
        assert(v@.subrange(start as int, b as int).take(c - start) =~= v@.subrange(
            start as int,
            c as int,
        ));
    }
    (start, c)
}

/// The value of the digits between `a` and `b`, or `None` past 255.
fn digits_u8(v: &Vec<char>, a: usize, b: usize) -> (r: Option<u8>)
    requires
        a <= b <= v@.len(),
        forall|i: int| a <= i < b ==> is_digit(#[trigger] v@[i]),
    ensures
        match r {
            Some(n) => digits_value(v@.subrange(a as int, b as int)) == n as nat,
            None => digits_value(v@.subrange(a as int, b as int)) > 255,
        },
{
    let mut acc: u32 = 0;
    let mut over = false;
    let mut i = a;
    while i < b
        invariant
            a <= i <= b <= v@.len(),
            forall|j: int| a <= j < b ==> is_digit(#[trigger] v@[j]),
            over ==> digits_value(v@.subrange(a as int, i as int)) > 255,
            !over ==> acc <= 255 && digits_value(v@.subrange(a as int, i as int)) == acc as nat,
        decreases b - i,
    {
        let d = (v[i] as u32) - ('0' as u32);
        proof {
            assert(is_digit(v@[i as int]));
            assert(v@.subrange(a as int, i as int + 1).drop_last() =~= v@.subrange(
                a as int,
                i as int,
            ));
        }
        if !over {
            let next = acc * 10 + d;
            if next > 255 {
                over = true;
            } else {
                acc = next;
            }
        }
        i += 1;
    }
    if over {
        None
    } else {
        Some(acc as u8)
    }
}

/// Reads a `u8` as `str::parse` does.
fn parse_u8(v: &Vec<char>) -> (r: Option<u8>)
    ensures
        r == parse_u8_spec(v@),
{
    let n = v.len();
    let a: usize = if n > 0 && v[0] == '+' {
        1
    } else {
        0
    };
    let ghost d = v@.subrange(a as int, n as int);
    proof {
        if a == 1 {
            assert(d =~= v@.drop_first());
        } else {
            assert(d =~= v@);
        }
    }
    if a == n {
        return None;
    }
    let mut i = a;
    while i < n
        invariant
            a <= i <= n,
            n == v@.len(),
            d == v@.subrange(a as int, n as int),
            d == unsigned_part(v@),
            forall|j: int| a <= j < i ==> is_digit(#[trigger] v@[j]),
        decreases n - i,
    {
        if !('0' <= v[i] && v[i] <= '9') {
            proof {
                assert(d[i - a] == v@[i as int]);
                assert(!is_digit(d[i - a]));
                assert(!all_digits(d));
            }
            return None;
        }
        i += 1;
    }
    proof {
        assert forall|j: int| 0 <= j < d.len() implies is_digit(#[trigger] d[j]) by {
            assert(d[j] == v@[a + j]);
        }
    }
    digits_u8(v, a, n)
}

// ---------------------------------------------------------------------------
// Errors.

/// Why a combo text could not be read.
#[derive(Debug, Clone)]
pub enum ParseError {
    /// The text holds no command.
    EmptyFile,
    /// A line is not in the command format.
    InvalidFormat { line: usize, content: String },
    /// A line names no known key.
    InvalidKey { line: usize, key: String },
    /// The text could not be read.
    IoError(String),
}

/// What a [`ParseError`] holds, with its texts as character sequences.
pub enum ParseErrorView {
    EmptyFile,
    InvalidFormat { line: int, content: Seq<char> },
    InvalidKey { line: int, key: Seq<char> },
    IoError(Seq<char>),
}

impl View for ParseError {
    type V = ParseErrorView;

    open spec fn view(&self) -> ParseErrorView {
        match self {
            ParseError::EmptyFile => ParseErrorView::EmptyFile,
            ParseError::InvalidFormat { line, content } => ParseErrorView::InvalidFormat {
                line: *line as int,
                content: content@,
            },
            ParseError::InvalidKey { line, key } => ParseErrorView::InvalidKey {
                line: *line as int,
                key: key@,
            },
            ParseError::IoError(msg) => ParseErrorView::IoError(msg@),
        }
    }
}

/// The message that describes an error.
pub open spec fn error_message(e: ParseErrorView) -> Seq<char> {
    match e {
        ParseErrorView::EmptyFile => "File is empty"@,
        ParseErrorView::InvalidFormat { line, content } => "Invalid format at line "@ + decimal(
            line as nat,
        ) + ": "@ + content,
        ParseErrorView::InvalidKey { line, key } => "Invalid key '"@ + key + "' at line "@
            + decimal(line as nat),
        ParseErrorView::IoError(msg) => "IO error: "@ + msg,
    }
}

impl ParseError {
    /// The message that describes the error.
    pub fn message(&self) -> (r: String)
        ensures
            r@ == error_message(self@),
    {
        match self {
            ParseError::EmptyFile => String::from_str("File is empty"),
            ParseError::InvalidFormat { line, content } => {
                let mut out = String::from_str("Invalid format at line ");
                let n = decimal_string(*line as u64);
                out.append(n.as_str());
                out.append(": ");
                out.append(content.as_str());
                out
            },
            ParseError::InvalidKey { line, key } => {
                let mut out = String::from_str("Invalid key '");
                out.append(key.as_str());
                out.append("' at line ");
                let n = decimal_string(*line as u64);
                out.append(n.as_str());
                out
            },
            ParseError::IoError(msg) => {
                let mut out = String::from_str("IO error: ");
                out.append(msg.as_str());
                out
            },
        }
    }
}

/// The text of a decimal digit.
fn digit_str(d: u64) -> (r: &'static str)
    requires
        d < 10,
    ensures
        r@ == seq![digit_char(d as nat)],
{
    if d == 0 {
        proof {
            reveal_strlit("0");
        }
        "0"
    } else if d == 1 {
        proof {
            reveal_strlit("1");
        }
        "1"
    } else if d == 2 {
        proof {
            reveal_strlit("2");
        }
        "2"
    } else if d == 3 {
        proof {
            reveal_strlit("3");
        }
        "3"
    } else if d == 4 {
        proof {
            reveal_strlit("4");
        }
        "4"
    } else if d == 5 {
        proof {
            reveal_strlit("5");
        }
        "5"
    } else if d == 6 {
        proof {
            reveal_strlit("6");
        }
        "6"
    } else if d == 7 {
        proof {
            reveal_strlit("7");
        }
        "7"
    } else if d == 8 {
        proof {
            reveal_strlit("8");
        }
        "8"
    } else {
        proof {
            reveal_strlit("9");
        }
        "9"
    }
}

/// A number written in decimal.
pub fn decimal_string(n: u64) -> (r: String)
    ensures
        r@ == decimal(n as nat),
    decreases n,
{
    if n < 10 {
        String::from_str(digit_str(n))
    } else {
        let mut s = decimal_string(n / 10);
        s.append(digit_str(n % 10));
        s
    }
}

// ---------------------------------------------------------------------------
// Lines.

/// Hold time, in milliseconds, of a hold command read from a combo text.
pub const DEFAULT_HOLD_DURATION_MS: u64 = 300;

/// The line starts with the end marker `!!!!!`.
pub open spec fn is_end_marker(s: Seq<char>) -> bool {
    s.len() >= 5 && s[0] == '!' && s[1] == '!' && s[2] == '!' && s[3] == '!' && s[4] == '!'
}

/// What lies between the ends of a line: trimmed, without its trailing
/// `|`s, and trimmed again.
pub open spec fn line_body(line: Seq<char>) -> Seq<char> {
    trim(trim_pipes(trim(line)))
}

/// The `k`-th field of a line, trimmed.
pub open spec fn part(line: Seq<char>, k: nat) -> Seq<char> {
    trim(field(line_body(line), k))
}

/// The command of a line, with the given key, kind and title mark.
pub open spec fn command_of(
    line: Seq<char>,
    key: KeyIdentifier,
    input_type: InputType,
    is_title: bool,
) -> CommandView {
    CommandView {
        key,
        input_type,
        character: part(line, 1),
        skill_type: part(line, 2),
        memo: part(line, 3),
        is_title,
    }
}

/// What a line reads as, at the given line number. A blank line and one
/// that starts with the end marker hold no command. A key that starts with
/// `#` makes a title line; one that starts with `U` or `u` a hold of the key
/// that follows; any other a tap. A key that names nothing is an error.
pub open spec fn parse_line_spec(line: Seq<char>, n: int) -> Result<
    Option<CommandView>,
    ParseErrorView,
> {
    let t = trim(line);
    let key_str = part(line, 0);
    if t.len() == 0 || is_end_marker(t) {
        Ok(None)
    } else if key_str.len() > 0 && key_str[0] == '#' {
        Ok(Some(command_of(line, KeyIdentifier::Number(0), InputType::Tap, true)))
    } else if key_str.len() > 0 && (key_str[0] == 'U' || key_str[0] == 'u') {
        match key_of_text(key_str.drop_first()) {
            Some(k) => Ok(
                Some(
                    command_of(
                        line,
                        k,
                        InputType::Hold { duration_ms: DEFAULT_HOLD_DURATION_MS },
                        false,
                    ),
                ),
            ),
            None => Err(ParseErrorView::InvalidKey { line: n, key: key_str }),
        }
    } else {
        match key_of_text(key_str) {
            Some(k) => Ok(Some(command_of(line, k, InputType::Tap, false))),
            None => Err(ParseErrorView::InvalidKey { line: n, key: key_str }),
        }
    }
}

/// The view of what reading a line returned.
pub open spec fn line_result_view(r: Result<Option<ComboCommand>, ParseError>) -> Result<
    Option<CommandView>,
    ParseErrorView,
> {
    match r {
        Ok(Some(c)) => Ok(Some(c@)),
        Ok(None) => Ok(None),
        Err(e) => Err(e@),
    }
}

/// The text between `a` and `b`.
fn text_of(s: &str, a: usize, b: usize) -> (r: String)
    requires
        a <= b <= s@.len(),
    ensures
        r@ == s@.subrange(a as int, b as int),
{
    String::from_str(s.substring_char(a, b))
}

/// The bounds of the `k`-th field, trimmed, of the text between `a` and `b`.
fn part_range(v: &Vec<char>, a: usize, b: usize, k: usize) -> (r: (usize, usize))
    requires
        a <= b <= v@.len(),
    ensures
        a <= r.0 <= r.1 <= b,
        v@.subrange(r.0 as int, r.1 as int) == trim(
            field(v@.subrange(a as int, b as int), k as nat),
        ),
{
    let (f0, f1) = field_range(v, a, b, k);
    trim_range(v, f0, f1)
}

/// Reads one line of a combo text; `line_number` counts from one.
fn parse_line(line: &str, line_number: usize) -> (r: Result<Option<ComboCommand>, ParseError>)
    ensures
        line_result_view(r) == parse_line_spec(line@, line_number as int),
{
    let v = chars_of(line);
    let n = v.len();
    proof {
        assert(v@.subrange(0, n as int) =~= v@);
    }
    let (a, b) = trim_range(&v, 0, n);
    if a == b {
        return Ok(None);
    }
    if b - a >= 5 && v[a] == '!' && v[a + 1] == '!' && v[a + 2] == '!' && v[a + 3] == '!' && v[a
        + 4] == '!' {
        return Ok(None);
    }
    let e = trim_pipes_end(&v, a, b);
    let (c, d) = trim_range(&v, a, e);
    let (k0, k1) = part_range(&v, c, d, 0);
    let (c0, c1) = part_range(&v, c, d, 1);
    let (s0, s1) = part_range(&v, c, d, 2);
    let (m0, m1) = part_range(&v, c, d, 3);
    let character = text_of(line, c0, c1);
    let skill_type = text_of(line, s0, s1);
    let memo = text_of(line, m0, m1);
    let ghost key_str = v@.subrange(k0 as int, k1 as int);
    proof {
        assert(key_str == part(line@, 0));
    }
    if k0 < k1 && v[k0] == '#' {
        return Ok(
            Some(
                ComboCommand {
                    key: KeyIdentifier::Number(0),
                    input_type: InputType::Tap,
                    character,
                    skill_type,
                    memo,
                    is_title: true,
                },
            ),
        );
    }
    let (key, input_type) = if k0 < k1 && (v[k0] == 'U' || v[k0] == 'u') {
        proof {
            assert(v@.subrange(k0 as int + 1, k1 as int) =~= key_str.drop_first());
        }
        match KeyIdentifier::from_str(line.substring_char(k0 + 1, k1)) {
            Some(key) => (key, InputType::Hold { duration_ms: DEFAULT_HOLD_DURATION_MS }),
            None => {
                return Err(ParseError::InvalidKey { line: line_number, key: text_of(line, k0, k1) });
            },
        }
    } else {
        match KeyIdentifier::from_str(line.substring_char(k0, k1)) {
            Some(key) => (key, InputType::Tap),
            None => {
                return Err(ParseError::InvalidKey { line: line_number, key: text_of(line, k0, k1) });
            },
        }
    };
    Ok(Some(ComboCommand { key, input_type, character, skill_type, memo, is_title: false }))
}

// ---------------------------------------------------------------------------
// Whole texts.

/// The title given to a combo whose title line has an empty name.
pub open spec fn untitled() -> Seq<char> {
    "Untitled"@
}

/// The title after a command: the first title line names the combo.
pub open spec fn title_after(title: Seq<char>, c: CommandView) -> Seq<char> {
    if c.is_title && title.len() == 0 {
        if c.character.len() == 0 {
            untitled()
        } else {
            c.character
        }
    } else {
        title
    }
}

/// The title and commands of a sequence of lines, numbered from one, or the
/// error of the first line that has one.
pub open spec fn parse_lines(lines: Seq<Seq<char>>) -> Result<
    (Seq<char>, Seq<CommandView>),
    ParseErrorView,
>
    decreases lines.len(),
{
    if lines.len() == 0 {
        Ok((Seq::empty(), Seq::empty()))
    } else {
        match parse_lines(lines.drop_last()) {
            Err(e) => Err(e),
            Ok((title, cmds)) => match parse_line_spec(lines.last(), lines.len() as int) {
                Err(e) => Err(e),
                Ok(None) => Ok((title, cmds)),
                Ok(Some(c)) => Ok((title_after(title, c), cmds.push(c))),
            },
        }
    }
}

/// What a combo text reads as: an error if a line has one, else an empty
/// file if no line holds a command, else the title and the commands.
pub open spec fn parse_content_spec(content: Seq<char>) -> Result<ComboFileView, ParseErrorView> {
    match parse_lines(lines_of(content)) {
        Err(e) => Err(e),
        Ok((title, cmds)) => if cmds.len() == 0 {
            Err(ParseErrorView::EmptyFile)
        } else {
            Ok(ComboFileView { title, commands: cmds })
        },
    }
}

/// The view of what reading a text returned.
pub open spec fn file_result_view(r: Result<ComboFile, ParseError>) -> Result<
    ComboFileView,
    ParseErrorView,
> {
    match r {
        Ok(f) => Ok(f@),
        Err(e) => Err(e@),
    }
}

/// Once a line has failed, more lines do not change the error.
proof fn lemma_parse_lines_err(a: Seq<Seq<char>>, b: Seq<Seq<char>>)
    requires
        parse_lines(a) is Err,
    ensures
        parse_lines(a + b) == parse_lines(a),
    decreases b.len(),
{
    if b.len() == 0 {
        assert(a + b =~= a);
    } else {
        assert((a + b).drop_last() =~= a + b.drop_last());
        lemma_parse_lines_err(a, b.drop_last());
    }
}

/// Reads a combo text.
pub fn parse_combo_content(content: &str) -> (r: Result<ComboFile, ParseError>)
    ensures
        file_result_view(r) == parse_content_spec(content@),
{
    let v = chars_of(content);
    let n = v.len();
    let mut title = String::new();
    let mut commands: Vec<ComboCommand> = Vec::new();
    let mut pos: usize = 0;
    let mut line_number: usize = 0;
    let ghost mut done: Seq<Seq<char>> = Seq::empty();
    proof {
        assert(v@.subrange(0, n as int) =~= v@);
        assert(done + lines_of(v@) =~= lines_of(v@));
        assert(commands_view(commands@) =~= Seq::<CommandView>::empty());
    }
    while pos < n
        invariant
            pos <= n,
            n == v@.len(),
            v@ == content@,
            lines_of(v@) == done + lines_of(v@.subrange(pos as int, n as int)),
            line_number == done.len(),
            line_number <= pos,
            parse_lines(done) == Ok::<(Seq<char>, Seq<CommandView>), ParseErrorView>(
                (title@, commands_view(commands@)),
            ),
        decreases n - pos,
    {
        let p = find_char(&v, pos, n, '\n');
        let mut end = p;
        if p < n && end > pos && v[end - 1] == '\r' {
            end = end - 1;
        }
        let ghost line = v@.subrange(pos as int, end as int);
        let ghost rest = v@.subrange(pos as int, n as int);
        proof {
            if p < n {
                let l = rest.take(p - pos);
                assert(l =~= v@.subrange(pos as int, p as int));
                if l.len() > 0 && l.last() == '\r' {
                    assert(l.drop_last() =~= line);
                } else {
                    assert(l =~= line);
                }
                assert(rest.skip(p - pos + 1) =~= v@.subrange(p as int + 1, n as int));
            } else {
                assert(line =~= rest);
            }
        }
        line_number += 1;
        let parsed = parse_line(content.substring_char(pos, end), line_number);
        let ghost next_done = done.push(line);
        proof {
            assert(next_done.drop_last() =~= done);
        }
        match parsed {
            Err(e) => {
                proof {
                    let after = if p < n {
                        lines_of(v@.subrange(p as int + 1, n as int))
                    } else {
                        Seq::empty()
                    };
                    assert(lines_of(v@) =~= next_done + after);
                    lemma_parse_lines_err(next_done, after);
                }
                return Err(e);
            },
            Ok(None) => {},
            Ok(Some(cmd)) => {
                if cmd.is_title && title.as_str().is_empty() {
                    if cmd.character.as_str().is_empty() {
                        title = String::from_str("Untitled");
                    } else {
                        title = cmd.character.clone();
                    }
                }
                let ghost before = commands@;
                commands.push(cmd);
                proof {
                    assert(commands_view(commands@) =~= commands_view(before).push(cmd@));
                }
            },
        }
        proof {
            if p < n {
                assert(lines_of(v@) =~= next_done + lines_of(v@.subrange(p as int + 1, n as int)));
            } else {
                assert(v@.subrange(n as int, n as int) =~= Seq::<char>::empty());
                assert(lines_of(v@) =~= next_done + lines_of(v@.subrange(n as int, n as int)));
            }
            done = next_done;
        }
        pos = if p < n {
            p + 1
        } else {
            n
        };
    }
    proof {
        assert(v@.subrange(n as int, n as int) =~= Seq::<char>::empty());
        assert(lines_of(v@) =~= done);
    }
    if commands.len() == 0 {
        return Err(ParseError::EmptyFile);
    }
    Ok(ComboFile { title, commands })
}

/// The key text of a command: `#` for a title line, else the key (its
/// number, `E` or `L`), after a `U` for a hold.
pub open spec fn key_text(c: CommandView) -> Seq<char> {
    if c.is_title {
        seq!['#']
    } else {
        let base = match c.key {
            KeyIdentifier::Number(n) => decimal(n as nat),
            KeyIdentifier::Chain => seq!['E'],
            KeyIdentifier::HeavyAttack => seq!['L'],
            KeyIdentifier::MouseLeft => seq!['L'],
        };
        match c.input_type {
            InputType::Tap => base,
            InputType::Hold { .. } => seq!['U'] + base,
        }
    }
}

/// The line of a command: `KEY,CHARACTER,SKILL_TYPE,MEMO|` and a newline.
pub open spec fn command_line(c: CommandView) -> Seq<char> {
    key_text(c) + seq![','] + c.character + seq![','] + c.skill_type + seq![','] + c.memo + seq![
        '|',
        '\n',
    ]
}

/// The lines of a list of commands, one after another.
pub open spec fn commands_text(cmds: Seq<CommandView>) -> Seq<char>
    decreases cmds.len(),
{
    if cmds.len() == 0 {
        Seq::empty()
    } else {
        commands_text(cmds.drop_last()) + command_line(cmds.last())
    }
}

/// A combo as text: a line per command, then the end marker line.
pub open spec fn serialize_spec(f: ComboFileView) -> Seq<char> {
    commands_text(f.commands) + "!!!!!\n"@
}

/// The key text of a command.
fn key_text_of(cmd: &ComboCommand) -> (r: String)
    ensures
        r@ == key_text(cmd@),
{
    if cmd.is_title {
        proof {
            reveal_strlit("#");
        }
        return String::from_str("#");
    }
    let base = match cmd.key {
        KeyIdentifier::Number(n) => decimal_string(n as u64),
        KeyIdentifier::Chain => {
            proof {
                reveal_strlit("E");
            }
            String::from_str("E")
        },
        KeyIdentifier::HeavyAttack | KeyIdentifier::MouseLeft => {
            proof {
                reveal_strlit("L");
            }
            String::from_str("L")
        },
    };
    match cmd.input_type {
        InputType::Tap => base,
        InputType::Hold { .. } => {
            proof {
                reveal_strlit("U");
            }
            let mut out = String::from_str("U");
            out.append(base.as_str());
            out
        },
    }
}

/// Writes a combo as text, a line per command, title lines included, and
/// the end marker after them.
pub fn serialize_combo_file(combo: &ComboFile) -> (r: String)
    ensures
        r@ == serialize_spec(combo@),
{
    let mut output = String::new();
    let n = combo.commands.len();
    let ghost cmds = commands_view(combo.commands@);
    let mut i: usize = 0;
    while i < n
        invariant
            n == combo.commands@.len(),
            cmds == commands_view(combo.commands@),
            i <= n,
            output@ == commands_text(cmds.take(i as int)),
        decreases n - i,
    {
        let cmd = &combo.commands[i];
        let key_str = key_text_of(cmd);
        output.append(key_str.as_str());
        output.append(",");
        output.append(cmd.character.as_str());
        output.append(",");
        output.append(cmd.skill_type.as_str());
        output.append(",");
        output.append(cmd.memo.as_str());
        output.append("|\n");
        proof {
            reveal_strlit(",");
            reveal_strlit("|\n");
            assert(cmds.take(i as int + 1).drop_last() =~= cmds.take(i as int));
            assert(cmds.take(i as int + 1).last() == cmd@);
            assert(output@ =~= commands_text(cmds.take(i as int)) + command_line(cmd@));
        }
        i += 1;
    }
    output.append("!!!!!\n");
    proof {
        assert(cmds.take(n as int) =~= cmds);
    }
    output
}

} // verus!
