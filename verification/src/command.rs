//! The command line that asks the daemon for a top list.

use vstd::prelude::*;
use vstd::string::*;
use vstd::utf8::*;

verus! {

/// The limit that a request without one gets.
pub const DEFAULT_LIMIT: usize = 10;

/// The parameters a top list can be asked with. A field left out takes its
/// default: ten entries, no audit, descending order.
#[derive(Clone, Copy, Debug, PartialEq, Eq)]
pub struct TopParams {
    pub limit: Option<usize>,
    pub audit: Option<bool>,
    pub ascending: Option<bool>,
}

/// The parameters of a request that names none.
pub open spec fn default_params() -> TopParams {
    TopParams { limit: Some(DEFAULT_LIMIT), audit: Some(false), ascending: Some(false) }
}

impl Default for TopParams {
    /// The parameters of a request that names none.
    fn default() -> (params: Self)
        ensures
            params == default_params(),
    {
        TopParams { limit: Some(DEFAULT_LIMIT), audit: Some(false), ascending: Some(false) }
    }
}

impl TopParams {
    /// The number of entries asked for.
    pub open spec fn limit_or_default(self) -> nat {
        match self.limit {
            Some(limit) => limit as nat,
            None => DEFAULT_LIMIT as nat,
        }
    }

    /// Whether the list is asked for the audit log.
    pub open spec fn audit_or_default(self) -> bool {
        match self.audit {
            Some(audit) => audit,
            None => false,
        }
    }

    /// Whether the list is asked in ascending order.
    pub open spec fn ascending_or_default(self) -> bool {
        match self.ascending {
            Some(ascending) => ascending,
            None => false,
        }
    }
}

/// The character of a decimal digit.
pub open spec fn digit_char(d: nat) -> char
    recommends
        d < 10,
{
    if d == 0 {
        '0'
    } else if d == 1 {
        '1'
    } else if d == 2 {
        '2'
    } else if d == 3 {
        '3'
    } else if d == 4 {
        '4'
    } else if d == 5 {
        '5'
    } else if d == 6 {
        '6'
    } else if d == 7 {
        '7'
    } else if d == 8 {
        '8'
    } else {
        '9'
    }
}

/// A number in decimal, without sign or leading zeros.
pub open spec fn decimal_digits(n: nat) -> Seq<char>
    decreases n,
{
    if n < 10 {
        seq![digit_char(n)]
    } else {
        decimal_digits(n / 10).push(digit_char(n % 10))
    }
}

/// The verb of the command: the list of blocked domains or of all domains.
pub open spec fn verb_text(blocked: bool) -> Seq<char> {
    if blocked {
        "top-ads"@
    } else {
        "top-domains"@
    }
}

/// The command line for a top list: the verb, the limit in parentheses,
/// then ` for audit` and ` asc` where they are asked for.
pub open spec fn command_text(blocked: bool, params: TopParams) -> Seq<char> {
    verb_text(blocked) + " ("@ + decimal_digits(params.limit_or_default()) + ")"@ + (
    if params.audit_or_default() {
        " for audit"@
    } else {
        Seq::<char>::empty()
    }) + (if params.ascending_or_default() {
        " asc"@
    } else {
        Seq::<char>::empty()
    })
}

/// The text of a decimal digit.
fn digit_str(d: usize) -> (s: &'static str)
    requires
        d < 10,
    ensures
        s@ == seq![digit_char(d as nat)],
{
    proof {
        reveal_strlit("0");
        reveal_strlit("1");
        reveal_strlit("2");
        reveal_strlit("3");
        reveal_strlit("4");
        reveal_strlit("5");
        reveal_strlit("6");
        reveal_strlit("7");
        reveal_strlit("8");
        reveal_strlit("9");
    }
    let s: &'static str = if d == 0 {
        "0"
    } else if d == 1 {
        "1"
    } else if d == 2 {
        "2"
    } else if d == 3 {
        "3"
    } else if d == 4 {
        "4"
    } else if d == 5 {
        "5"
    } else if d == 6 {
        "6"
    } else if d == 7 {
        "7"
    } else if d == 8 {
        "8"
    } else {
        "9"
    };
    assert(s@ =~= seq![digit_char(d as nat)]);
    s
}

/// Appends `n` in decimal to `out`.
pub fn push_decimal(out: &mut String, n: usize)
    ensures
        final(out)@ == old(out)@ + decimal_digits(n as nat),
    decreases n,
{
    if n >= 10 {
        push_decimal(out, n / 10);
    }
    out.append(digit_str(n % 10));
}

/// Builds the command line for a top list.
pub fn build_command(blocked: bool, params: &TopParams) -> (command: String)
    ensures
        command@ == command_text(blocked, *params),
{
    let limit: usize = match params.limit {
        Some(limit) => limit,
        None => DEFAULT_LIMIT,
    };
    let audit: bool = match params.audit {
        Some(audit) => audit,
        None => false,
    };
    let ascending: bool = match params.ascending {
        Some(ascending) => ascending,
        None => false,
    };
    let mut command = String::from_str(if blocked {
        "top-ads"
    } else {
        "top-domains"
    });
    command.append(" (");
    push_decimal(&mut command, limit);
    command.append(")");
    if audit {
        command.append(" for audit");
    }
    if ascending {
        command.append(" asc");
    }
    assert(command@ =~= command_text(blocked, *params));
    command
}

/// A character that may stand in a command: an ASCII character other than
/// the line end.
pub open spec fn is_command_char(c: char) -> bool {
    '\0' <= c <= '\u{7f}' && c != '\n'
}

/// A number in decimal is made of ASCII digits.
pub proof fn lemma_decimal_digits_are_digits(n: nat)
    ensures
        decimal_digits(n).len() >= 1,
        forall|i: int|
            0 <= i < decimal_digits(n).len() ==> '0' <= #[trigger] decimal_digits(n)[i] <= '9',
    decreases n,
{
    if n >= 10 {
        lemma_decimal_digits_are_digits(n / 10);
    }
}

/// The command is one line of ASCII: each of its characters is an ASCII
/// character, and none is the line end.
pub proof fn lemma_command_is_one_ascii_line(blocked: bool, params: TopParams)
    ensures
        forall|i: int|
            0 <= i < command_text(blocked, params).len() ==> is_command_char(
                #[trigger] command_text(blocked, params)[i],
            ),
        is_ascii_chars(command_text(blocked, params)),
{
    reveal_strlit("top-ads");
    reveal_strlit("top-domains");
    reveal_strlit(" (");
    reveal_strlit(")");
    reveal_strlit(" for audit");
    reveal_strlit(" asc");
    lemma_decimal_digits_are_digits(params.limit_or_default());
    let verb = verb_text(blocked);
    let digits = decimal_digits(params.limit_or_default());
    let audit = if params.audit_or_default() {
        " for audit"@
    } else {
        Seq::<char>::empty()
    };
    let order = if params.ascending_or_default() {
        " asc"@
    } else {
        Seq::<char>::empty()
    };
    assert forall|i: int| 0 <= i < verb.len() implies is_command_char(#[trigger] verb[i]) by {}
    assert forall|i: int| 0 <= i < " ("@.len() implies is_command_char(#[trigger] " ("@[i]) by {}
    assert forall|i: int| 0 <= i < digits.len() implies is_command_char(#[trigger] digits[i]) by {}
    assert forall|i: int| 0 <= i < audit.len() implies is_command_char(#[trigger] audit[i]) by {}
    assert forall|i: int| 0 <= i < order.len() implies is_command_char(#[trigger] order[i]) by {}
    let text = command_text(blocked, params);
    assert forall|i: int| 0 <= i < text.len() implies is_command_char(#[trigger] text[i]) by {
        let a = verb.len() as int;
        let b = a + 2;
        let c = b + digits.len();
        let d = c + 1;
        let e = d + audit.len();
        if i < a {
        } else if i < b {
        } else if i < c {
        } else if i < d {
        } else if i < e {
        } else {
        }
    }
}

/// The byte that ends a command line.
pub const LINE_END: u8 = 0x0a;

/// The bytes that are written to the daemon for `command`: the command in
/// UTF-8 and a line end.
pub fn command_line(command: &str) -> (line: Vec<u8>)
    ensures
        line@ == encode_utf8(command@).push(LINE_END),
{
    let mut line = command.as_bytes_vec();
    line.push(LINE_END);
    line
}

/// The line written for a command holds the command's characters, one byte
/// each, and the line end after them and nowhere else.
pub proof fn lemma_command_line_is_one_line(blocked: bool, params: TopParams)
    ensures
        ({
            let text = command_text(blocked, params);
            let line = encode_utf8(text).push(LINE_END);
            &&& line.len() == text.len() + 1
            &&& forall|i: int|
                0 <= i < text.len() ==> #[trigger] line[i] == text[i] as u8 && line[i] != LINE_END
        }),
{
    let text = command_text(blocked, params);
    lemma_command_is_one_ascii_line(blocked, params);
    is_ascii_chars_encode_utf8(text);
    assert forall|i: int| 0 <= i < text.len() implies #[trigger] encode_utf8(text).push(
        LINE_END,
    )[i] == text[i] as u8 && encode_utf8(text).push(LINE_END)[i] != LINE_END by {
        assert(is_command_char(text[i]));
        assert(encode_utf8(text)[i] == text[i] as u8);
    }
}

/// The command line is a function of the values that the parameters stand
/// for: requests that agree in kind, limit, audit and order, be it by a
/// value given or by a default, get the same command.
pub proof fn lemma_command_by_values(blocked: bool, a: TopParams, b: TopParams)
    requires
        a.limit_or_default() == b.limit_or_default(),
        a.audit_or_default() == b.audit_or_default(),
        a.ascending_or_default() == b.ascending_or_default(),
    ensures
        command_text(blocked, a) == command_text(blocked, b),
{
}

} // verus!
