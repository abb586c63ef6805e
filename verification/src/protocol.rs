//! Bounded UTF-8 line framing of the daemon's command pipe, and the
//! commands a frame carries.
use crate::text::{char_is_whitespace, chars_of, is_whitespace, string_of, trim, trim_bounds, trim_end, trim_start};
use vstd::prelude::*;
use vstd::utf8::{decode_utf8, valid_utf8};

verus! {

/// Longest command line, in bytes, without its terminating newline.
pub const MAX_COMMAND_BYTES: usize = 8191;

/// A command of the daemon's line protocol.
#[derive(Clone, Debug, PartialEq, Eq)]
pub enum Command {
    Quit,
    Status,
    /// Start a program: the command line after the verb.
    Spawn(String),
}

pub enum CommandView {
    Quit,
    Status,
    Spawn(Seq<char>),
}

impl View for Command {
    type V = CommandView;

    open spec fn view(&self) -> CommandView {
        match self {
            Command::Quit => CommandView::Quit,
            Command::Status => CommandView::Status,
            Command::Spawn(s) => CommandView::Spawn(s@),
        }
    }
}

/// Length of the leading run of non-whitespace characters.
pub open spec fn word_len(s: Seq<char>) -> int
    decreases s.len(),
{
    if s.len() == 0 || is_whitespace(s[0]) { 0 } else { 1 + word_len(s.drop_first()) }
}

/// The command a line names: surrounding whitespace ignored, the verb up to
/// the first whitespace, the argument the trimmed rest.
pub open spec fn spec_parse(line: Seq<char>) -> Option<CommandView> {
    let t = trim(line);
    let verb = t.take(word_len(t));
    let arg = trim(t.skip(word_len(t)));
    if verb == "quit"@ && arg.len() == 0 {
        Some(CommandView::Quit)
    } else if verb == "status"@ && arg.len() == 0 {
        Some(CommandView::Status)
    } else if verb == "spawn"@ && arg.len() > 0 {
        Some(CommandView::Spawn(arg))
    } else {
        None
    }
}

proof fn lemma_word_len(s: Seq<char>)
    ensures
        0 <= word_len(s) <= s.len(),
        forall|i: int| 0 <= i < word_len(s) ==> !is_whitespace(#[trigger] s[i]),
        word_len(s) < s.len() ==> is_whitespace(s[word_len(s)]),
    decreases s.len(),
{
    if s.len() > 0 && !is_whitespace(s[0]) {
        lemma_word_len(s.drop_first());
        assert forall|i: int| 0 <= i < word_len(s) implies !is_whitespace(#[trigger] s[i]) by {
            if i > 0 {
                assert(s[i] == s.drop_first()[i - 1]);
            }
        }
    }
}

/// The command a line names, or why it names none.
pub fn parse(line: &str) -> (r: Result<Command, String>)
    ensures
        r is Ok <==> spec_parse(line@) is Some,
        r matches Ok(c) ==> Some(c@) == spec_parse(line@),
{
    let chars = chars_of(line);
    let (start, end) = trim_bounds(&chars, 0);
    assert(chars@.skip(0) =~= chars@);
    let ghost t = trim(line@);
    assert(t =~= chars@.subrange(start as int, end as int));
    let mut stop = start;
    while stop < end && !char_is_whitespace(chars[stop])
        invariant
            start <= stop <= end,
            end <= chars@.len(),
            forall|j: int| start <= j < stop ==> !is_whitespace(#[trigger] chars@[j]),
        decreases end - stop,
    {
        stop += 1;
    }
    proof {
        lemma_word_len(t);
        let k = word_len(t);
        assert forall|j: int| 0 <= j < stop - start implies !is_whitespace(#[trigger] t[j]) by {
            assert(t[j] == chars@[start + j]);
        }
        if stop < end {
            assert(t[stop - start] == chars@[stop as int]);
        }
        if k < stop - start {
            assert(!is_whitespace(t[k]));
        }
        if k > stop - start {
            assert(!is_whitespace(t[stop - start]));
        }
        assert(k == stop - start);
    }
    let verb = string_of(&chars.as_slice()[start..stop], stop - start);
    let (astart, aend) = trim_bounds(&chars, stop);
    proof {
        let k = word_len(t);
        assert(verb@ =~= t.take(k));
        assert(chars@.skip(stop as int).subrange(0, (end - stop) as int) =~= t.skip(k));
        // the argument: trimmed rest of the trimmed line, i.e. of the rest of the line
        assert(trim(t.skip(k)) == trim(chars@.skip(stop as int))) by {
            lemma_trim_tail(chars@, stop as int, end as int);
        }
    }
    let arg_len = aend - astart;
    let arg = string_of(&chars.as_slice()[astart..aend], arg_len);
    assert(arg@ =~= chars@.subrange(astart as int, aend as int));
    if crate::text::same_str(verb.as_str(), "quit") && arg_len == 0 {
        Ok(Command::Quit)
    } else if crate::text::same_str(verb.as_str(), "status") && arg_len == 0 {
        Ok(Command::Status)
    } else if crate::text::same_str(verb.as_str(), "spawn") && arg_len > 0 {
        Ok(Command::Spawn(arg))
    } else {
        let mut message = "unknown command: ".to_owned();
        crate::text::push_text(&mut message, verb.as_str());
        Err(message)
    }
}

/// Trimming the whitespace-ended tail `stop..end` of a trimmed line equals
/// trimming the whole rest of the line from `stop`.
proof fn lemma_trim_tail(chars: Seq<char>, stop: int, end: int)
    requires
        0 <= stop <= end <= chars.len(),
        forall|j: int| end <= j < chars.len() ==> is_whitespace(#[trigger] chars[j]),
    ensures
        trim(chars.skip(stop).subrange(0, end - stop)) == trim(chars.skip(stop)),
{
    let a = chars.skip(stop).subrange(0, end - stop);
    let b = chars.skip(stop);
    lemma_trim_start_prefix(a, b);
    lemma_trim_end_suffix(trim_start(a), trim_start(b));
}

proof fn lemma_trim_start_prefix(a: Seq<char>, b: Seq<char>)
    requires
        a.len() <= b.len(),
        a == b.take(a.len() as int),
        forall|j: int| a.len() <= j < b.len() ==> is_whitespace(#[trigger] b[j]),
    ensures
        trim_start(a).len() <= trim_start(b).len(),
        trim_start(a) == trim_start(b).take(trim_start(a).len() as int),
        forall|j: int| trim_start(a).len() <= j < trim_start(b).len() ==> is_whitespace(#[trigger] trim_start(b)[j]),
    decreases a.len(),
{
    if a.len() > 0 && is_whitespace(a[0]) {
        assert(b[0] == a[0]);
        assert(a.drop_first() =~= b.drop_first().take(a.len() - 1));
        assert forall|j: int| a.drop_first().len() <= j < b.drop_first().len() implies is_whitespace(#[trigger] b.drop_first()[j]) by {
            assert(b.drop_first()[j] == b[j + 1]);
        }
        lemma_trim_start_prefix(a.drop_first(), b.drop_first());
    } else if a.len() > 0 {
        assert(b[0] == a[0]);
    } else {
        // a is empty: b is all whitespace, so trim_start(b) is empty.
        lemma_all_white(b);
    }
}

proof fn lemma_all_white(b: Seq<char>)
    requires
        forall|j: int| 0 <= j < b.len() ==> is_whitespace(#[trigger] b[j]),
    ensures
        trim_start(b).len() == 0,
    decreases b.len(),
{
    if b.len() > 0 {
        assert forall|j: int| 0 <= j < b.drop_first().len() implies is_whitespace(#[trigger] b.drop_first()[j]) by {
            assert(b.drop_first()[j] == b[j + 1]);
        }
        lemma_all_white(b.drop_first());
    }
}

proof fn lemma_trim_end_suffix(a: Seq<char>, b: Seq<char>)
    requires
        a.len() <= b.len(),
        a == b.take(a.len() as int),
        forall|j: int| a.len() <= j < b.len() ==> is_whitespace(#[trigger] b[j]),
    ensures
        trim_end(a) == trim_end(b),
    decreases b.len(),
{
    if a.len() < b.len() {
        assert(b.drop_last().take(a.len() as int) =~= a);
        lemma_trim_end_suffix(a, b.drop_last());
    } else {
        assert(a =~= b);
    }
}

/// `std::str::from_utf8`: the text of `bytes` when they are valid UTF-8;
/// otherwise the error's display text.
#[verifier::external_body]
fn utf8(bytes: &[u8]) -> (r: Result<&str, String>)
    ensures
        r is Ok <==> valid_utf8(bytes@),
        r matches Ok(s) ==> s@ == decode_utf8(bytes@),
{
    std::str::from_utf8(bytes).map_err(|e| e.to_string())
}

/// Index of the first newline of `input`, its length when there is none.
pub open spec fn newline_at(input: Seq<u8>) -> int
    decreases input.len(),
{
    if input.len() == 0 {
        0
    } else if input[0] == 10u8 {
        0
    } else {
        1 + newline_at(input.drop_first())
    }
}

/// Index of the first newline of `input`, if any.
pub open spec fn first_newline(input: Seq<u8>) -> Option<int> {
    if newline_at(input) < input.len() { Some(newline_at(input)) } else { None }
}

proof fn lemma_newline_at(input: Seq<u8>, n: int)
    requires
        0 <= n <= input.len(),
        forall|j: int| 0 <= j < n ==> input[j] != 10u8,
    ensures
        n <= newline_at(input) <= input.len(),
        n < input.len() && input[n] == 10u8 ==> newline_at(input) == n,
    decreases n,
{
    if n > 0 {
        assert forall|j: int| 0 <= j < n - 1 implies input.drop_first()[j] != 10u8 by {
            assert(input.drop_first()[j] == input[j + 1]);
        }
        lemma_newline_at(input.drop_first(), n - 1);
    } else {
        lemma_newline_bound(input);
    }
}

proof fn lemma_newline_bound(input: Seq<u8>)
    ensures
        0 <= newline_at(input) <= input.len(),
    decreases input.len(),
{
    if input.len() > 0 {
        lemma_newline_bound(input.drop_first());
    }
}

/// Length of the frame at the start of `input`: its bytes before the
/// newline, when the newline comes within the size limit.
pub open spec fn frame_len(input: Seq<u8>) -> Option<int> {
    match first_newline(input) {
        Some(n) => if n <= MAX_COMMAND_BYTES { Some(n) } else { None },
        None => None,
    }
}

/// How many bytes reading one command takes from `input`.
pub open spec fn consumed(input: Seq<u8>) -> int {
    match frame_len(input) {
        Some(n) => n + 1,
        None => if input.len() > MAX_COMMAND_BYTES { MAX_COMMAND_BYTES + 1 } else { input.len() as int },
    }
}

/// Reads one newline-terminated command from the front of `reader`, which
/// then starts after what was read. A missing newline, more than 8191 bytes
/// before it, invalid UTF-8 and an unknown command are errors.
pub fn read_command(reader: &mut &[u8]) -> (r: Result<Command, String>)
    ensures
        final(reader)@ == old(reader)@.skip(consumed(old(reader)@)),
        r is Ok <==> ({
            &&& frame_len(old(reader)@) is Some
            &&& valid_utf8(old(reader)@.take(frame_len(old(reader)@)->0))
            &&& spec_parse(decode_utf8(old(reader)@.take(frame_len(old(reader)@)->0))) is Some
        }),
        r matches Ok(c) ==> Some(c@) == spec_parse(decode_utf8(old(reader)@.take(frame_len(old(reader)@)->0))),
        frame_len(old(reader)@) is None && old(reader)@.len() > MAX_COMMAND_BYTES ==> (r matches Err(e) && e@ == "IPC command exceeds 8191 bytes"@),
        frame_len(old(reader)@) is None && old(reader)@.len() <= MAX_COMMAND_BYTES ==> (r matches Err(e) && e@ == "incomplete IPC command: failed to fill whole buffer"@),
{
    let input: &[u8] = *reader;
    let len = input.len();
    let mut n: usize = 0;
    while n < len && n < MAX_COMMAND_BYTES + 1 && input[n] != 10u8
        invariant
            len == input@.len(),
            n <= len,
            n <= MAX_COMMAND_BYTES + 1,
            forall|j: int| 0 <= j < n ==> input@[j] != 10u8,
        decreases len - n,
    {
        n += 1;
    }
    proof {
        lemma_newline_at(input@, n as int);
    }
    if n >= len || n > MAX_COMMAND_BYTES {
        if len > MAX_COMMAND_BYTES {
            *reader = vstd::slice::slice_subrange(input, MAX_COMMAND_BYTES + 1, len);
            return Err("IPC command exceeds 8191 bytes".to_owned());
        }
        *reader = vstd::slice::slice_subrange(input, len, len);
        return Err("incomplete IPC command: failed to fill whole buffer".to_owned());
    }
    *reader = vstd::slice::slice_subrange(input, n + 1, len);
    let frame = vstd::slice::slice_subrange(input, 0, n);
    assert(frame@ =~= input@.take(n as int));
    match utf8(frame) {
        Ok(text) => parse(text),
        Err(e) => Err(e),
    }
}

/// A frame is read up to its newline and no further: whatever follows it
/// stays for the next read.
pub proof fn one_frame_is_consumed(line: Seq<u8>, rest: Seq<u8>)
    requires
        line.len() <= MAX_COMMAND_BYTES,
        forall|j: int| 0 <= j < line.len() ==> line[j] != 10u8,
    ensures
        ({
            let input = line + seq![10u8] + rest;
            &&& frame_len(input) == Some(line.len() as int)
            &&& input.take(line.len() as int) == line
            &&& input.skip(consumed(input)) == rest
        }),
{
    let input = line + seq![10u8] + rest;
    assert forall|j: int| 0 <= j < line.len() implies input[j] != 10u8 by {
        assert(input[j] == line[j]);
    }
    assert(input[line.len() as int] == 10u8);
    lemma_newline_at(input, line.len() as int);
    assert(input.take(line.len() as int) =~= line);
    assert(input.skip(line.len() as int + 1) =~= rest);
}

} // verus!

