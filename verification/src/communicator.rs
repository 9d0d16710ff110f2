//! A tiny text-command parser for a suit control grammar, and the rendering
//! of commands back to status strings.
//!
//! The grammar is a chain of anchored rules, tried in order:
//!
//! | command  | input format                 |
//! |----------|------------------------------|
//! | Power    | `power (inc|dec) [0-9]+`     |
//! | Missiles | `(fire|add) [0-9]+ missiles` |
//! | Shield   | `shield (on|off)`            |
//! | Try      | `try calling Miss Potts`     |
//! | Invalid  | anything else                |

use vstd::prelude::*;

verus! {

/// A parsed suit command.
#[derive(Debug, PartialEq, Eq, Structural)]
pub enum Command {
    /// Increase (true) or decrease (false) power by the given amount.
    Power(bool, i32),
    /// Add (true) or fire (false) the given number of missiles.
    Missiles(bool, i32),
    /// Turn the shield on (true) or off (false).
    Shield(bool),
    /// Try calling Pepper.
    Try,
    /// Anything else.
    Invalid,
}

/// A decimal digit.
pub open spec fn spec_is_digit(c: char) -> bool {
    48 <= c as int <= 57
}

/// The value of a decimal digit ('0' is code point 48).
pub open spec fn spec_digit_val(c: char) -> int {
    c as int - 48
}

/// Every character of the sequence is a decimal digit.
pub open spec fn spec_all_digits(s: Seq<char>) -> bool {
    forall|i: int| 0 <= i < s.len() ==> spec_is_digit(#[trigger] s[i])
}

/// The number a digit sequence denotes, most significant digit first.
pub open spec fn spec_digits_val(s: Seq<char>) -> int
    decreases s.len(),
{
    if s.len() == 0 {
        0
    } else {
        10 * spec_digits_val(s.drop_last()) + spec_digit_val(s.last())
    }
}

/// A digit sequence denotes a non-negative number.
proof fn lemma_digits_val_nonneg(s: Seq<char>)
    requires
        spec_all_digits(s),
    ensures
        spec_digits_val(s) >= 0,
    decreases s.len(),
{
    if s.len() > 0 {
        assert(spec_all_digits(s.drop_last()));
        lemma_digits_val_nonneg(s.drop_last());
    }
}

/// Reading more digits never shrinks the value: any prefix of a digit
/// sequence denotes at most the value of the whole.
proof fn lemma_digits_val_prefix(s: Seq<char>, j: int)
    requires
        spec_all_digits(s),
        0 <= j <= s.len(),
    ensures
        spec_digits_val(s.subrange(0, j)) <= spec_digits_val(s),
    decreases s.len() - j,
{
    if j == s.len() {
        assert(s.subrange(0, j) =~= s);
    } else {
        lemma_digits_val_prefix(s, j + 1);
        let shorter = s.subrange(0, j);
        let longer = s.subrange(0, j + 1);
        assert(longer.drop_last() =~= shorter);
        assert(spec_all_digits(shorter));
        lemma_digits_val_nonneg(shorter);
    }
}

/// What `[0-9]+` parses to: the denoted value, when the sequence is nothing
/// but digits, is non-empty, and the value fits an `i32`; nothing otherwise.
pub open spec fn spec_parse_num(s: Seq<char>) -> Option<i32> {
    if s.len() >= 1 && spec_all_digits(s) && spec_digits_val(s) <= i32::MAX {
        Some(spec_digits_val(s) as i32)
    } else {
        None
    }
}

/// Parses a non-empty, all-digit decimal number that fits an `i32`.
fn parse_num(s: &str) -> (r: Option<i32>)
    ensures
        r == spec_parse_num(s@),
{
    let len = s.unicode_len();
    if len == 0 {
        return None;
    }
    let mut acc: i64 = 0;
    let mut i: usize = 0;
    while i < len
        invariant
            len == s@.len(),
            i <= len,
            0 <= acc <= i32::MAX,
            acc == spec_digits_val(s@.subrange(0, i as int)),
            forall|m: int| 0 <= m < i ==> spec_is_digit(#[trigger] s@[m]),
        decreases len - i,
    {
        let c = s.get_char(i);
        let cv = c as u32;
        if cv < 48 || cv > 57 {
            return None;
        }
        let d = (cv - 48) as i64;
        proof {
            assert(s@.subrange(0, i as int + 1).drop_last() =~= s@.subrange(0, i as int));
        }
        let val = acc * 10 + d;
        if val > 2147483647 {
            proof {
                if s@.len() >= 1 && spec_all_digits(s@) {
                    lemma_digits_val_prefix(s@, i as int + 1);
                }
            }
            return None;
        }
        acc = val;
        i = i + 1;
    }
    proof {
        assert(s@.subrange(0, len as int) =~= s@);
    }
    Some(acc as i32)
}

/// `p` is a prefix of `s`.
pub open spec fn spec_prefix(s: Seq<char>, p: Seq<char>) -> bool {
    p.len() <= s.len() && s.subrange(0, p.len() as int) == p
}

/// What remains of `s` after a prefix `p`.
pub open spec fn spec_rest_after(s: Seq<char>, p: Seq<char>) -> Seq<char> {
    s.subrange(p.len() as int, s.len() as int)
}

/// Character-by-character string equality.
fn str_equal(a: &str, b: &str) -> (r: bool)
    ensures
        r == (a@ == b@),
{
    let a_len = a.unicode_len();
    let b_len = b.unicode_len();
    if a_len != b_len {
        return false;
    }
    let mut i: usize = 0;
    while i < a_len
        invariant
            a_len == a@.len(),
            a@.len() == b@.len(),
            i <= a_len,
            forall|m: int| 0 <= m < i ==> a@[m] == b@[m],
        decreases a_len - i,
    {
        if a.get_char(i) != b.get_char(i) {
            return false;
        }
        i = i + 1;
    }
    proof {
        assert(a@ =~= b@);
    }
    true
}

/// Character-by-character prefix test.
fn str_prefix(s: &str, p: &str) -> (r: bool)
    ensures
        r == spec_prefix(s@, p@),
{
    let s_len = s.unicode_len();
    let p_len = p.unicode_len();
    if p_len > s_len {
        return false;
    }
    let mut i: usize = 0;
    while i < p_len
        invariant
            s_len == s@.len(),
            p_len == p@.len(),
            p_len <= s_len,
            i <= p_len,
            forall|m: int| 0 <= m < i ==> s@[m] == p@[m],
        decreases p_len - i,
    {
        if s.get_char(i) != p.get_char(i) {
            proof {
                assert(s@.subrange(0, p@.len() as int)[i as int] == s@[i as int]);
            }
            return false;
        }
        i = i + 1;
    }
    proof {
        assert(s@.subrange(0, p@.len() as int) =~= p@);
    }
    true
}

/// The last rule of the chain: exactly `try calling Miss Potts` is `Try`.
pub open spec fn spec_try_cmd(s: Seq<char>) -> Command {
    if s == "try calling Miss Potts"@ {
        Command::Try
    } else {
        Command::Invalid
    }
}

/// Converts a string to a command by the `Try` rule alone.
pub fn try_fn(s: &str) -> (c: Command)
    ensures
        c == spec_try_cmd(s@),
{
    if str_equal(s, "try calling Miss Potts") {
        Command::Try
    } else {
        Command::Invalid
    }
}

/// The chain from the `shield off` rule down.
pub open spec fn spec_shieldoff_cmd(s: Seq<char>) -> Command {
    if s == "shield off"@ {
        Command::Shield(false)
    } else {
        spec_try_cmd(s)
    }
}

/// Converts a string to a command, trying the `shield off` rule first and
/// falling through to the later rules.
pub fn shieldoff_fn(s: &str) -> (c: Command)
    ensures
        c == spec_shieldoff_cmd(s@),
{
    if str_equal(s, "shield off") {
        Command::Shield(false)
    } else {
        try_fn(s)
    }
}

/// The chain from the `shield on` rule down.
pub open spec fn spec_shieldon_cmd(s: Seq<char>) -> Command {
    if s == "shield on"@ {
        Command::Shield(true)
    } else {
        spec_shieldoff_cmd(s)
    }
}

/// Converts a string to a command, trying the `shield on` rule first and
/// falling through to the later rules.
pub fn shieldon_fn(s: &str) -> (c: Command)
    ensures
        c == spec_shieldon_cmd(s@),
{
    if str_equal(s, "shield on") {
        Command::Shield(true)
    } else {
        shieldoff_fn(s)
    }
}

/// What follows `fire ` or `add `: a number, a single space and the word
/// `missiles`; the parsed number, or nothing when the shape is wrong.
pub open spec fn spec_missiles_arg(s: Seq<char>) -> Option<i32> {
    if s.len() >= 10 && s.subrange(s.len() - 9, s.len() as int) == " missiles"@ {
        spec_parse_num(s.subrange(0, s.len() - 9))
    } else {
        None
    }
}

/// Parses the `[0-9]+ missiles` argument shape.
fn missiles_arg(s: &str) -> (r: Option<i32>)
    ensures
        r == spec_missiles_arg(s@),
{
    proof {
        reveal_strlit(" missiles");
    }
    let len = s.unicode_len();
    if len < 10 {
        return None;
    }
    let suffix = s.substring_char(len - 9, len);
    if !str_equal(suffix, " missiles") {
        return None;
    }
    parse_num(s.substring_char(0, len - 9))
}

/// The chain from the `fire` rule down.
pub open spec fn spec_miss_fire_cmd(s: Seq<char>) -> Command {
    if spec_prefix(s, "fire "@) {
        match spec_missiles_arg(spec_rest_after(s, "fire "@)) {
            Some(v) => Command::Missiles(false, v),
            None => Command::Invalid,
        }
    } else {
        spec_shieldon_cmd(s)
    }
}

/// Converts a string to a command, trying the `fire N missiles` rule first
/// and falling through to the later rules.
pub fn miss_fire_fn(s: &str) -> (c: Command)
    ensures
        c == spec_miss_fire_cmd(s@),
{
    proof {
        reveal_strlit("fire ");
    }
    if str_prefix(s, "fire ") {
        let len = s.unicode_len();
        let rest = s.substring_char(5, len);
        match missiles_arg(rest) {
            Some(v) => Command::Missiles(false, v),
            None => Command::Invalid,
        }
    } else {
        shieldon_fn(s)
    }
}

/// The chain from the `add` rule down.
pub open spec fn spec_miss_add_cmd(s: Seq<char>) -> Command {
    if spec_prefix(s, "add "@) {
        match spec_missiles_arg(spec_rest_after(s, "add "@)) {
            Some(v) => Command::Missiles(true, v),
            None => Command::Invalid,
        }
    } else {
        spec_miss_fire_cmd(s)
    }
}

/// Converts a string to a command, trying the `add N missiles` rule first
/// and falling through to the later rules.
pub fn miss_add_fn(s: &str) -> (c: Command)
    ensures
        c == spec_miss_add_cmd(s@),
{
    proof {
        reveal_strlit("add ");
    }
    if str_prefix(s, "add ") {
        let len = s.unicode_len();
        let rest = s.substring_char(4, len);
        match missiles_arg(rest) {
            Some(v) => Command::Missiles(true, v),
            None => Command::Invalid,
        }
    } else {
        miss_fire_fn(s)
    }
}

/// The chain from the `power dec` rule down.
pub open spec fn spec_powe_dec_cmd(s: Seq<char>) -> Command {
    if spec_prefix(s, "power dec "@) {
        match spec_parse_num(spec_rest_after(s, "power dec "@)) {
            Some(v) => Command::Power(false, v),
            None => Command::Invalid,
        }
    } else {
        spec_miss_add_cmd(s)
    }
}

/// Converts a string to a command, trying the `power dec N` rule first and
/// falling through to the later rules.
pub fn powe_dec_fn(s: &str) -> (c: Command)
    ensures
        c == spec_powe_dec_cmd(s@),
{
    proof {
        reveal_strlit("power dec ");
    }
    if str_prefix(s, "power dec ") {
        let len = s.unicode_len();
        let rest = s.substring_char(10, len);
        match parse_num(rest) {
            Some(v) => Command::Power(false, v),
            None => Command::Invalid,
        }
    } else {
        miss_add_fn(s)
    }
}

/// The whole grammar: every rule, tried in order.
pub open spec fn spec_to_command(s: Seq<char>) -> Command {
    if spec_prefix(s, "power inc "@) {
        match spec_parse_num(spec_rest_after(s, "power inc "@)) {
            Some(v) => Command::Power(true, v),
            None => Command::Invalid,
        }
    } else {
        spec_powe_dec_cmd(s)
    }
}

/// Converts a string to a command: the first rule of the grammar whose shape
/// the string matches decides; anything else is `Invalid`.
pub fn to_command(s: &str) -> (c: Command)
    ensures
        c == spec_to_command(s@),
{
    proof {
        reveal_strlit("power inc ");
    }
    if str_prefix(s, "power inc ") {
        let len = s.unicode_len();
        let rest = s.substring_char(10, len);
        match parse_num(rest) {
            Some(v) => Command::Power(true, v),
            None => Command::Invalid,
        }
    } else {
        powe_dec_fn(s)
    }
}

/// The character of one decimal digit.
pub open spec fn spec_digit_char(d: int) -> char {
    if d == 0 {
        '0'
    } else if d == 1 {
        '1'
    } else if d == 2 {
        '2'
    } else if d == 3 {
        '3'
    } else if d == 4 {
        '4'
    } else if d == 5 {
        '5'
    } else if d == 6 {
        '6'
    } else if d == 7 {
        '7'
    } else if d == 8 {
        '8'
    } else {
        '9'
    }
}

/// The decimal digits of a natural number, most significant first.
pub open spec fn spec_nat_digits(n: nat) -> Seq<char>
    decreases n,
{
    if n < 10 {
        seq![spec_digit_char(n as int)]
    } else {
        spec_nat_digits(n / 10) + seq![spec_digit_char((n % 10) as int)]
    }
}

/// The decimal rendering of an integer: a minus sign for a negative value,
/// then the digits of its magnitude.
pub open spec fn spec_i32_str(n: int) -> Seq<char> {
    if n < 0 {
        seq!['-'] + spec_nat_digits((-n) as nat)
    } else {
        spec_nat_digits(n as nat)
    }
}

/// The status line that `as_str` renders for each command.
pub open spec fn spec_command_str(c: Command) -> Seq<char> {
    match c {
        Command::Power(true, v) => "Power increased by "@ + spec_i32_str(v as int) + "%"@,
        Command::Power(false, v) => "Power decreased by "@ + spec_i32_str(v as int) + "%"@,
        Command::Missiles(true, v) => "Missiles increased by "@ + spec_i32_str(v as int),
        Command::Missiles(false, v) => "Missiles decreased by "@ + spec_i32_str(v as int),
        Command::Shield(true) => "Shield turned on"@,
        Command::Shield(false) => "Shield turned off"@,
        Command::Try => "Call attempt failed"@,
        Command::Invalid => "Not a command"@,
    }
}

/// One decimal digit as a one-character string.
fn digit_str(d: u64) -> (r: String)
    requires
        d < 10,
    ensures
        r@ == seq![spec_digit_char(d as int)],
{
    proof {
        reveal_strlit("0");
        reveal_strlit("1");
        reveal_strlit("2");
        reveal_strlit("3");
        reveal_strlit("4");
        reveal_strlit("5");
        reveal_strlit("6");
        reveal_strlit("7");
        reveal_strlit("8");
        reveal_strlit("9");
    }
    let r = if d == 0 {
        String::from_str("0")
    } else if d == 1 {
        String::from_str("1")
    } else if d == 2 {
        String::from_str("2")
    } else if d == 3 {
        String::from_str("3")
    } else if d == 4 {
        String::from_str("4")
    } else if d == 5 {
        String::from_str("5")
    } else if d == 6 {
        String::from_str("6")
    } else if d == 7 {
        String::from_str("7")
    } else if d == 8 {
        String::from_str("8")
    } else {
        String::from_str("9")
    };
    proof {
        assert(r@ =~= seq![spec_digit_char(d as int)]);
    }
    r
}

/// The decimal digits of a natural number, built most significant first.
fn u64_digits(n: u64) -> (r: String)
    ensures
        r@ == spec_nat_digits(n as nat),
    decreases n,
{
    if n < 10 {
        digit_str(n)
    } else {
        let mut front = u64_digits(n / 10);
        let back = digit_str(n % 10);
        front.append(back.as_str());
        front
    }
}

/// The decimal rendering of an `i32`, sign included.
fn i32_to_string(n: i32) -> (r: String)
    ensures
        r@ == spec_i32_str(n as int),
{
    if n >= 0 {
        u64_digits(n as u64)
    } else {
        proof {
            reveal_strlit("-");
        }
        let mag = (-(n as i64)) as u64;
        let mut res = String::from_str("-");
        let digits = u64_digits(mag);
        res.append(digits.as_str());
        proof {
            assert("-"@ =~= seq!['-']);
        }
        res
    }
}

impl Command {
    /// Renders the command as its status line:
    ///
    /// | command  | output format                        |
    /// |----------|--------------------------------------|
    /// | Power    | `Power (increased|decreased) by N%`  |
    /// | Missiles | `Missiles (increased|decreased) by N`|
    /// | Shield   | `Shield turned (on|off)`             |
    /// | Try      | `Call attempt failed`                |
    /// | Invalid  | `Not a command`                      |
    pub fn as_str(&self) -> (r: String)
        ensures
            r@ == spec_command_str(*self),
    {
        match self {
            Command::Power(true, value) => {
                let mut ret_val = String::from_str("Power increased by ");
                let num = i32_to_string(*value);
                ret_val.append(num.as_str());
                ret_val.append("%");
                ret_val
            },
            Command::Power(false, value) => {
                let mut ret_val = String::from_str("Power decreased by ");
                let num = i32_to_string(*value);
                ret_val.append(num.as_str());
                ret_val.append("%");
                ret_val
            },
            Command::Missiles(true, value) => {
                let mut ret_val = String::from_str("Missiles increased by ");
                let num = i32_to_string(*value);
                ret_val.append(num.as_str());
                ret_val
            },
            Command::Missiles(false, value) => {
                let mut ret_val = String::from_str("Missiles decreased by ");
                let num = i32_to_string(*value);
                ret_val.append(num.as_str());
                ret_val
            },
            Command::Shield(true) => String::from_str("Shield turned on"),
            Command::Shield(false) => String::from_str("Shield turned off"),
            Command::Try => String::from_str("Call attempt failed"),
            Command::Invalid => String::from_str("Not a command"),
        }
    }
}

} // verus!
