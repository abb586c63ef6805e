//! Volume actions of the audio applet: the grammar of the actions its view
//! sends, and the level each one asks for. Talking to the audio endpoints
//! belongs to the platform layer.
use crate::text::{chars_of, push_text, string_of, trim, trim_bounds};
use vstd::prelude::*;

verus! {

/// A change of an endpoint's level.
#[derive(Debug, PartialEq, Eq)]
pub enum Level {
    SetTo(i64),
    Up,
    Down,
    ToggleMute,
}

/// A view action.
#[derive(Debug, PartialEq, Eq)]
pub enum Action {
    Output(Level),
    Input(Level),
    DefaultOutput(String),
    DefaultInput(String),
    Session(i64, String),
}

pub enum ActionView {
    Output(Level),
    Input(Level),
    DefaultOutput(Seq<char>),
    DefaultInput(Seq<char>),
    Session(i64, Seq<char>),
}

impl View for Action {
    type V = ActionView;

    open spec fn view(&self) -> ActionView {
        match self {
            Action::Output(l) => ActionView::Output(*l),
            Action::Input(l) => ActionView::Input(*l),
            Action::DefaultOutput(id) => ActionView::DefaultOutput(id@),
            Action::DefaultInput(id) => ActionView::DefaultInput(id@),
            Action::Session(n, id) => ActionView::Session(*n, id@),
        }
    }
}

pub open spec fn is_digit(c: char) -> bool {
    '0' <= c <= '9'
}

/// The value of a run of decimal digits.
pub open spec fn decimal(d: Seq<char>) -> int
    decreases d.len(),
{
    if d.len() == 0 { 0 } else { decimal(d.drop_last()) * 10 + (d.last() as int - 48) }
}

/// Every character of `d` is a decimal digit.
pub open spec fn all_digits(d: Seq<char>) -> bool {
    forall|i: int| 0 <= i < d.len() ==> is_digit(#[trigger] d[i])
}

/// The digits of a number's text: without its sign, if it has one.
pub open spec fn unsigned_part(s: Seq<char>) -> Seq<char> {
    if s.len() > 0 && (s[0] == '-' || s[0] == '+') { s.drop_first() } else { s }
}

/// `i64::from_str`: an optional `+` or `-`, then only decimal digits, and a
/// value within `i64`.
pub open spec fn spec_parse_i64(s: Seq<char>) -> Option<i64> {
    let d = unsigned_part(s);
    let v = if s.len() > 0 && s[0] == '-' { -decimal(d) } else { decimal(d) };
    if d.len() > 0 && all_digits(d) && i64::MIN <= v <= i64::MAX {
        Some(v as i64)
    } else {
        None
    }
}

proof fn lemma_decimal_grows(d: Seq<char>, k: int)
    requires
        0 <= k <= d.len(),
        forall|i: int| 0 <= i < d.len() ==> is_digit(#[trigger] d[i]),
    ensures
        0 <= decimal(d.take(k)) <= decimal(d),
    decreases d.len(),
{
    if d.len() > 0 {
        assert forall|i: int| 0 <= i < d.drop_last().len() implies is_digit(#[trigger] d.drop_last()[i]) by {
            assert(d.drop_last()[i] == d[i]);
        }
        if k == d.len() {
            assert(d.take(k) =~= d);
            lemma_decimal_grows(d.drop_last(), 0);
        } else {
            lemma_decimal_grows(d.drop_last(), k);
            assert(d.drop_last().take(k) =~= d.take(k));
        }
    } else {
        assert(d.take(k) =~= d);
    }
}

/// The number `s` spells, as `str::parse::<i64>` reads it.
pub fn parse_i64(s: &[char]) -> (r: Option<i64>)
    ensures
        r == spec_parse_i64(s@),
{
    let n = s.len();
    if n == 0 {
        return None;
    }
    let neg = s[0] == '-';
    let signed = neg || s[0] == '+';
    let start: usize = if signed { 1 } else { 0 };
    let ghost d = unsigned_part(s@);
    assert(d =~= s@.subrange(start as int, n as int));
    if start == n {
        return None;
    }
    let mut mag: u64 = 0;
    let mut i: usize = start;
    while i < n
        invariant
            start <= i <= n,
            n == s@.len(),
            n > 0,
            neg == (s@[0] == '-'),
            signed == (s@[0] == '-' || s@[0] == '+'),
            d == unsigned_part(s@),
            d == s@.subrange(start as int, n as int),
            forall|j: int| 0 <= j < i - start ==> is_digit(#[trigger] d[j]),
            mag as int == decimal(d.take(i - start)),
        decreases n - i,
    {
        let c = s[i];
        if !('0' <= c && c <= '9') {
            assert(d[i - start] == c);
            assert(!is_digit(d[i - start]));
            return None;
        }
        assert(d.take(i - start + 1).drop_last() =~= d.take(i - start));
        assert(d.take(i - start + 1).last() == c);
        let digit = (c as u32 - 48) as u64;
        let grown = match mag.checked_mul(10) {
            Some(m) => m.checked_add(digit),
            None => None,
        };
        match grown {
            Some(v) => mag = v,
            None => {
                proof {
                    assert(d[i - start] == c);
                    assert(decimal(d.take(i - start + 1)) == mag * 10 + digit);
                    assert(mag * 10 + digit > u64::MAX);
                    if all_digits(d) {
                        lemma_decimal_grows(d, i - start + 1);
                        assert(decimal(d) > u64::MAX);
                    }
                }
                return None;
            },
        }
        i += 1;
    }
    assert(d.take(n - start) =~= d);
    if neg {
        if mag < 9223372036854775808 {
            Some(-(mag as i64))
        } else if mag == 9223372036854775808 {
            Some(i64::MIN)
        } else {
            None
        }
    } else if mag <= 9223372036854775807 {
        Some(mag as i64)
    } else {
        None
    }
}

/// `s` cut at its first space: what comes before, and what comes after.
pub open spec fn split_space(s: Seq<char>) -> Option<(Seq<char>, Seq<char>)> {
    if exists|i: int| 0 <= i < s.len() && s[i] == ' ' {
        let i = choose|i: int| 0 <= i < s.len() && s[i] == ' ' && forall|j: int| 0 <= j < i ==> s[j] != ' ';
        Some((s.take(i), s.skip(i + 1)))
    } else {
        None
    }
}

/// Verb and argument of an action: the text up to the first space, and the
/// trimmed rest.
pub open spec fn verb_and_rest(action: Seq<char>) -> (Seq<char>, Seq<char>) {
    match split_space(action) {
        Some((verb, rest)) => (verb, trim(rest)),
        None => (action, Seq::empty()),
    }
}

/// A volume level argument, or the message refusing it.
pub open spec fn spec_percent(n: Seq<char>) -> Result<i64, Seq<char>> {
    match spec_parse_i64(trim(n)) {
        Some(v) => Ok(v),
        None => Err("invalid volume: "@ + n),
    }
}

/// The action an applet view sent: `set <n>`, `up`, `down`, `toggle-mute`,
/// `input-set <n>`, `input-toggle-mute`, `output <id>`, `input <id>` and
/// `session <n> <id>`, or the message refusing it.
pub open spec fn spec_audio_action(action: Seq<char>) -> Result<ActionView, Seq<char>> {
    let (verb, rest) = verb_and_rest(action);
    let unknown = Err("unknown volume action: "@ + action);
    if verb == "set"@ {
        match spec_percent(rest) { Ok(v) => Ok(ActionView::Output(Level::SetTo(v))), Err(e) => Err(e) }
    } else if verb == "up"@ && rest.len() == 0 {
        Ok(ActionView::Output(Level::Up))
    } else if verb == "down"@ && rest.len() == 0 {
        Ok(ActionView::Output(Level::Down))
    } else if verb == "toggle-mute"@ && rest.len() == 0 {
        Ok(ActionView::Output(Level::ToggleMute))
    } else if verb == "input-set"@ {
        match spec_percent(rest) { Ok(v) => Ok(ActionView::Input(Level::SetTo(v))), Err(e) => Err(e) }
    } else if verb == "input-toggle-mute"@ && rest.len() == 0 {
        Ok(ActionView::Input(Level::ToggleMute))
    } else if verb == "output"@ && rest.len() > 0 {
        Ok(ActionView::DefaultOutput(rest))
    } else if verb == "input"@ && rest.len() > 0 {
        Ok(ActionView::DefaultInput(rest))
    } else if verb == "session"@ {
        match split_space(rest) {
            Some((n, id)) => match spec_percent(n) {
                Ok(v) => Ok(ActionView::Session(v, trim(id))),
                Err(e) => Err(e),
            },
            None => Err("session action needs a level and an id"@),
        }
    } else {
        unknown
    }
}

/// Where the first space of `s` is, its length when there is none.
fn first_space(s: &[char]) -> (i: usize)
    ensures
        i <= s@.len(),
        i < s@.len() ==> split_space(s@) == Some((s@.take(i as int), s@.skip(i + 1))),
        i == s@.len() ==> split_space(s@) is None,
{
    let mut i: usize = 0;
    while i < s.len() && s[i] != ' '
        invariant
            i <= s@.len(),
            forall|j: int| 0 <= j < i ==> s@[j] != ' ',
        decreases s@.len() - i,
    {
        i += 1;
    }
    proof {
        if i < s@.len() {
            let k = choose|k: int| 0 <= k < s@.len() && s@[k] == ' ' && forall|j: int| 0 <= j < k ==> s@[j] != ' ';
            if k < i {
                assert(s@[k] != ' ');
            }
            if k > i {
                assert(s@[i as int] != ' ');
            }
        }
    }
    i
}

/// The trimmed text of `s`.
fn trimmed(s: &[char]) -> (r: Vec<char>)
    ensures
        r@ == trim(s@),
{
    let v = chars_vec(s);
    let (a, b) = trim_bounds(&v, 0);
    assert(v@.skip(0) =~= v@);
    let mut r: Vec<char> = Vec::new();
    let mut k = a;
    while k < b
        invariant
            a <= k <= b,
            b <= v@.len(),
            r@ == v@.subrange(a as int, k as int),
        decreases b - k,
    {
        r.push(v[k]);
        assert(r@ =~= v@.subrange(a as int, k + 1));
        k += 1;
    }
    r
}

fn chars_vec(s: &[char]) -> (v: Vec<char>)
    ensures
        v@ == s@,
{
    let mut v: Vec<char> = Vec::new();
    let mut i: usize = 0;
    while i < s.len()
        invariant
            i <= s@.len(),
            v@ == s@.take(i as int),
        decreases s@.len() - i,
    {
        v.push(s[i]);
        assert(v@ =~= s@.take(i + 1));
        i += 1;
    }
    assert(s@.take(i as int) =~= s@);
    v
}

fn text_of(s: &[char]) -> (r: String)
    ensures
        r@ == s@,
{
    let r = string_of(s, s.len());
    assert(s@.take(s@.len() as int) =~= s@);
    r
}

fn same(a: &[char], b: &str) -> (r: bool)
    ensures
        r == (a@ == b@),
{
    let t = chars_of(b);
    crate::text::same_chars(a, t.as_slice())
}

/// A level argument, or the message refusing it.
fn percent(n: &[char]) -> (r: Result<i64, String>)
    ensures
        match (r, spec_percent(n@)) {
            (Ok(a), Ok(b)) => a == b,
            (Err(a), Err(b)) => a@ == b,
            _ => false,
        },
{
    let t = trimmed(n);
    match parse_i64(t.as_slice()) {
        Some(v) => Ok(v),
        None => {
            let mut message = "invalid volume: ".to_owned();
            let text = text_of(n);
            push_text(&mut message, text.as_str());
            Err(message)
        },
    }
}

/// The action an applet view sent, or why it names none; see
/// `spec_audio_action` for the grammar.
pub fn parse(action: &str) -> (r: Result<Action, String>)
    ensures
        match (r, spec_audio_action(action@)) {
            (Ok(a), Ok(b)) => a@ == b,
            (Err(a), Err(b)) => a@ == b,
            _ => false,
        },
{
    let chars = chars_of(action);
    let cut = first_space(chars.as_slice());
    let verb: &[char];
    let rest: Vec<char>;
    if cut < chars.len() {
        verb = vstd::slice::slice_subrange(chars.as_slice(), 0, cut);
        let after = vstd::slice::slice_subrange(chars.as_slice(), cut + 1, chars.len());
        assert(verb@ =~= chars@.take(cut as int));
        assert(after@ =~= chars@.skip(cut + 1));
        rest = trimmed(after);
    } else {
        verb = chars.as_slice();
        rest = Vec::new();
    }
    let ghost spec = verb_and_rest(action@);
    assert(verb@ == spec.0 && rest@ == spec.1);
    let empty = rest.len() == 0;
    if same(verb, "set") {
        match percent(rest.as_slice()) {
            Ok(v) => Ok(Action::Output(Level::SetTo(v))),
            Err(e) => Err(e),
        }
    } else if same(verb, "up") && empty {
        Ok(Action::Output(Level::Up))
    } else if same(verb, "down") && empty {
        Ok(Action::Output(Level::Down))
    } else if same(verb, "toggle-mute") && empty {
        Ok(Action::Output(Level::ToggleMute))
    } else if same(verb, "input-set") {
        match percent(rest.as_slice()) {
            Ok(v) => Ok(Action::Input(Level::SetTo(v))),
            Err(e) => Err(e),
        }
    } else if same(verb, "input-toggle-mute") && empty {
        Ok(Action::Input(Level::ToggleMute))
    } else if same(verb, "output") && !empty {
        Ok(Action::DefaultOutput(text_of(rest.as_slice())))
    } else if same(verb, "input") && !empty {
        Ok(Action::DefaultInput(text_of(rest.as_slice())))
    } else if same(verb, "session") {
        let at = first_space(rest.as_slice());
        if at < rest.len() {
            let n = vstd::slice::slice_subrange(rest.as_slice(), 0, at);
            let tail = vstd::slice::slice_subrange(rest.as_slice(), at + 1, rest.len());
            assert(n@ =~= rest@.take(at as int));
            assert(tail@ =~= rest@.skip(at + 1));
            let id = trimmed(tail);
            match percent(n) {
                Ok(v) => Ok(Action::Session(v, text_of(id.as_slice()))),
                Err(e) => Err(e),
            }
        } else {
            Err("session action needs a level and an id".to_owned())
        }
    } else {
        let mut message = "unknown volume action: ".to_owned();
        push_text(&mut message, action);
        Err(message)
    }
}

/// The level, in percent, that `change` asks of an endpoint at `level`:
/// within 0 to 100; `None` for a mute toggle, which leaves the level.
pub fn target_percent(level: u32, change: &Level) -> (r: Option<i64>)
    ensures
        ({
            let target: int = match *change {
                Level::SetTo(n) => n as int,
                Level::Up => level + 5,
                Level::Down => level - 5,
                Level::ToggleMute => 0,
            };
            if *change is ToggleMute {
                r is None
            } else {
                r == Some((if target < 0 { 0 } else if target > 100 { 100 } else { target }) as i64)
            }
        }),
{
    let target: i64 = match change {
        Level::SetTo(n) => *n,
        Level::Up => level as i64 + 5,
        Level::Down => level as i64 - 5,
        Level::ToggleMute => return None,
    };
    Some(if target < 0 { 0 } else if target > 100 { 100 } else { target })
}

} // verus!
