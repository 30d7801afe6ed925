//! The interactive session: its markup, its commands and its settings.

use vstd::prelude::*;

use crate::number::{decimal, decimal_round_trip, decimal_text, parse_unsigned};
use crate::text::{
    blank_texts_trim_to_nothing, char_whitespace, chars_of, str_eq, string_of, trim, trimmed,
    trimmed_texts_have_visible_ends, trimming_keeps_what_lies_between,
};

verus! {

/// Where a turn begins.
pub open spec fn im_start() -> Seq<char> {
    "<|im_start|>"@
}

/// Where a turn ends.
pub open spec fn im_end() -> Seq<char> {
    "<|im_end|>"@
}

/// The markup of one user turn. The system prompt goes before the first; before
/// any other goes the end of the turn that came before, which stopped ahead of
/// it.
pub open spec fn turn_text(system: Seq<char>, user: Seq<char>, with_system: bool) -> Seq<char> {
    let turn = "\n"@ + im_start() + "user\n"@ + user + im_end() + "\n"@ + im_start()
        + "assistant\n"@;
    if with_system {
        im_start() + "system\n"@ + system + im_end() + turn
    } else {
        im_end() + turn
    }
}

/// The markup of one user turn.
///
/// The system prompt is there only on the first turn: the cache already holds
/// every earlier turn, so repeating it would both waste context and give the
/// model two of them.
pub fn segment(system: &str, user: &str, with_system: bool) -> (text: String)
    ensures
        text@ == turn_text(system@, user@, with_system),
{
    let mut text = String::new();
    if with_system {
        text.append("<|im_start|>");
        text.append("system\n");
        text.append(system);
    }
    text.append("<|im_end|>");
    text.append("\n");
    text.append("<|im_start|>");
    text.append("user\n");
    text.append(user);
    text.append("<|im_end|>");
    text.append("\n");
    text.append("<|im_start|>");
    text.append("assistant\n");
    assert(text@ =~= turn_text(system@, user@, with_system));
    text
}

/// What is fed and generated over some turns, each a message and its answer.
pub open spec fn session_text(system: Seq<char>, turns: Seq<(Seq<char>, Seq<char>)>) -> Seq<char>
    decreases turns.len(),
{
    if turns.len() == 0 {
        Seq::empty()
    } else {
        session_text(system, turns.drop_last()) + turn_text(
            system,
            turns.last().0,
            turns.len() == 1,
        ) + turns.last().1
    }
}

/// A conversation in the markup: the system prompt once, then each message and
/// its answer, everything closed but the last answer.
pub open spec fn transcript(system: Seq<char>, turns: Seq<(Seq<char>, Seq<char>)>) -> Seq<char>
    decreases turns.len(),
{
    if turns.len() == 0 {
        im_start() + "system\n"@ + system
    } else {
        transcript(system, turns.drop_last()) + im_end() + "\n"@ + im_start() + "user\n"@
            + turns.last().0 + im_end() + "\n"@ + im_start() + "assistant\n"@ + turns.last().1
    }
}

/// Feeding only the markup of each new turn adds up to the whole conversation:
/// the system prompt is in it once, and every turn is closed.
pub proof fn turns_add_up(system: Seq<char>, turns: Seq<(Seq<char>, Seq<char>)>)
    requires
        turns.len() > 0,
    ensures
        session_text(system, turns) == transcript(system, turns),
    decreases turns.len(),
{
    let before = turns.drop_last();
    if turns.len() > 1 {
        turns_add_up(system, before);
    } else {
        assert(transcript(system, before) == im_start() + "system\n"@ + system);
        assert(session_text(system, before) =~= Seq::<char>::empty());
    }
    assert(session_text(system, turns) =~= transcript(system, turns));
}

/// Whether a token ends an answer.
pub fn is_stop(id: u32, im_end: u32, eos: Option<u32>) -> (yes: bool)
    ensures
        yes == (id == im_end || eos == Some(id)),
{
    if id == im_end {
        return true;
    }
    match eos {
        Some(e) => e == id,
        None => false,
    }
}

/// Whether an answer is generated speculatively: a draft is wider than the token
/// itself, and decoding is greedy.
pub fn speculates(draft: usize, greedy: bool) -> (yes: bool)
    ensures
        yes == (draft > 1 && greedy),
{
    draft > 1 && greedy
}

/// Whether output is styled: it goes to a terminal, nothing asks for plain text,
/// and the terminal is one that understands styling.
pub fn use_ansi(terminal: bool, no_color: bool, windows: bool, windows_terminal: bool) -> (yes:
    bool)
    ensures
        yes == (terminal && !no_color && (windows ==> windows_terminal)),
{
    if !terminal || no_color {
        return false;
    }
    if windows {
        return windows_terminal;
    }
    true
}

// ----------------------------------------------------------------- commands

/// What a line asks for.
#[derive(Debug)]
pub enum Command {
    /// Nothing.
    Nothing,
    /// To leave.
    Quit,
    /// The list of commands.
    Help,
    /// To forget the conversation.
    Reset,
    /// To show the system prompt.
    ShowSystem,
    /// To replace the system prompt, and forget the conversation.
    SetSystem(String),
    /// The settings.
    Params,
    /// To change a setting.
    Change(String),
    /// The throughput so far.
    Stats,
    /// An answer to this.
    Message(String),
}

/// What a line asks for.
#[verifier::ext_equal]
pub enum CommandView {
    Nothing,
    Quit,
    Help,
    Reset,
    ShowSystem,
    SetSystem(Seq<char>),
    Params,
    Change(Seq<char>),
    Stats,
    Message(Seq<char>),
}

impl View for Command {
    type V = CommandView;

    open spec fn view(&self) -> CommandView {
        match *self {
            Command::Nothing => CommandView::Nothing,
            Command::Quit => CommandView::Quit,
            Command::Help => CommandView::Help,
            Command::Reset => CommandView::Reset,
            Command::ShowSystem => CommandView::ShowSystem,
            Command::SetSystem(s) => CommandView::SetSystem(s@),
            Command::Params => CommandView::Params,
            Command::Change(s) => CommandView::Change(s@),
            Command::Stats => CommandView::Stats,
            Command::Message(s) => CommandView::Message(s@),
        }
    }
}

/// How many characters of a text come before its first white space.
pub open spec fn word_len(s: Seq<char>) -> int
    decreases s.len(),
{
    if s.len() == 0 || char_whitespace(s[0]) {
        0
    } else {
        1 + word_len(s.skip(1))
    }
}

/// What a message asks for, once the white space round it is gone: its first
/// word decides, and some commands take what follows that word.
pub open spec fn command_of(msg: Seq<char>) -> CommandView {
    let n = word_len(msg);
    let word = msg.take(n);
    let rest = if n < msg.len() {
        trimmed(msg.skip(n + 1))
    } else {
        Seq::empty()
    };
    if word == ""@ {
        CommandView::Nothing
    } else if word == "/quit"@ || word == "/exit"@ || word == "/q"@ {
        CommandView::Quit
    } else if word == "/help"@ || word == "/?"@ {
        CommandView::Help
    } else if word == "/reset"@ {
        CommandView::Reset
    } else if word == "/system"@ {
        if rest.len() == 0 {
            CommandView::ShowSystem
        } else {
            CommandView::SetSystem(rest)
        }
    } else if word == "/params"@ {
        CommandView::Params
    } else if word == "/set"@ {
        CommandView::Change(rest)
    } else if word == "/stats"@ {
        CommandView::Stats
    } else {
        CommandView::Message(msg)
    }
}

proof fn lemma_word_len(s: Seq<char>, n: int)
    requires
        0 <= n <= s.len(),
        forall|i: int| 0 <= i < n ==> !char_whitespace(#[trigger] s[i]),
        n < s.len() ==> char_whitespace(s[n]),
    ensures
        word_len(s) == n,
    decreases n,
{
    if n > 0 {
        assert(!char_whitespace(s[0]));
        assert forall|i: int| 0 <= i < n - 1 implies !char_whitespace(
            #[trigger] s.skip(1)[i],
        ) by {
            assert(!char_whitespace(s[i + 1]));
        }
        lemma_word_len(s.skip(1), n - 1);
    }
}

/// Where the first word of a part of a text ends.
fn word_end(chars: &[char], from: usize, to: usize) -> (end: usize)
    requires
        from <= to <= chars@.len(),
    ensures
        from <= end <= to,
        end - from == word_len(chars@.subrange(from as int, to as int)),
{
    let ghost s = chars@.subrange(from as int, to as int);
    let mut i: usize = from;
    while i < to && !chars[i].is_whitespace()
        invariant
            from <= i <= to <= chars@.len(),
            s == chars@.subrange(from as int, to as int),
            forall|k: int| 0 <= k < i - from ==> !char_whitespace(#[trigger] s[k]),
        decreases to - i,
    {
        assert(s[i - from] == chars@[i as int]);
        i += 1;
    }
    proof {
        if i < to {
            assert(s[i - from] == chars@[i as int]);
        }
        lemma_word_len(s, i - from);
    }
    i
}

/// Reads what a line asks for.
pub fn parse_command(line: &str) -> (command: Command)
    ensures
        command@ == command_of(trimmed(line@)),
{
    let list = chars_of(line);
    let chars = list.as_slice();
    let (from, to) = trim(chars, 0, chars.len());
    let ghost msg = chars@.subrange(from as int, to as int);
    assert(chars@.subrange(0, chars@.len() as int) =~= line@);
    let end: usize = word_end(chars, from, to);
    let word = string_of(chars, from, end);
    assert(word@ =~= msg.take(end - from));
    let rest: String = if end < to {
        let (a, b) = trim(chars, end + 1, to);
        assert(msg.skip(end - from + 1) =~= chars@.subrange(end + 1, to as int));
        string_of(chars, a, b)
    } else {
        String::new()
    };
    let ghost want = if end < to {
        trimmed(msg.skip(end - from + 1))
    } else {
        Seq::empty()
    };
    assert(rest@ =~= want);
    let w = word.as_str();
    if str_eq(w, "") {
        Command::Nothing
    } else if str_eq(w, "/quit") || str_eq(w, "/exit") || str_eq(w, "/q") {
        Command::Quit
    } else if str_eq(w, "/help") || str_eq(w, "/?") {
        Command::Help
    } else if str_eq(w, "/reset") {
        Command::Reset
    } else if str_eq(w, "/system") {
        proof {
            reveal_strlit("");
            if rest@.len() == 0 {
                assert(rest@ =~= ""@);
            }
        }
        if str_eq(rest.as_str(), "") {
            Command::ShowSystem
        } else {
            Command::SetSystem(rest)
        }
    } else if str_eq(w, "/params") {
        Command::Params
    } else if str_eq(w, "/set") {
        Command::Change(rest)
    } else if str_eq(w, "/stats") {
        Command::Stats
    } else {
        Command::Message(string_of(chars, from, to))
    }
}

// ----------------------------------------------------------------- settings

/// A setting and the value it is to have. Those that are fractions are left as
/// text.
#[derive(Debug)]
pub enum Setting {
    Temperature(String),
    TopP(String),
    TopK(usize),
    MinP(String),
    RepeatPenalty(String),
    RepeatLastN(usize),
    Seed(u64),
}

/// Why a setting was not understood.
#[derive(Debug)]
pub enum SettingIssue {
    /// There is no name, or no value.
    Usage,
    /// The value of this setting is not a number.
    NotANumber { name: String, value: String },
    /// There is no setting of this name.
    Unknown(String),
}

/// The settings there are.
pub enum Knob {
    Temperature,
    TopP,
    TopK,
    MinP,
    RepeatPenalty,
    RepeatLastN,
    Seed,
}

/// The setting of a name.
pub open spec fn knob_of(name: Seq<char>) -> Option<Knob> {
    if name == "temperature"@ || name == "temp"@ {
        Some(Knob::Temperature)
    } else if name == "top-p"@ || name == "top_p"@ {
        Some(Knob::TopP)
    } else if name == "top-k"@ || name == "top_k"@ {
        Some(Knob::TopK)
    } else if name == "min-p"@ || name == "min_p"@ {
        Some(Knob::MinP)
    } else if name == "repeat-penalty"@ || name == "repeat_penalty"@ {
        Some(Knob::RepeatPenalty)
    } else if name == "repeat-last-n"@ || name == "repeat_last_n"@ {
        Some(Knob::RepeatLastN)
    } else if name == "seed"@ {
        Some(Knob::Seed)
    } else {
        None
    }
}

/// A text without the white space at its beginning.
pub open spec fn without_lead(s: Seq<char>) -> Seq<char>
    decreases s.len(),
{
    if s.len() > 0 && char_whitespace(s[0]) {
        without_lead(s.skip(1))
    } else {
        s
    }
}

/// The first word of a text, between white space.
pub open spec fn first_word(s: Seq<char>) -> Seq<char> {
    let t = without_lead(s);
    t.take(word_len(t))
}

/// What comes after the first word of a text.
pub open spec fn after_first_word(s: Seq<char>) -> Seq<char> {
    let t = without_lead(s);
    t.skip(word_len(t))
}

/// Whether a number fits.
pub open spec fn number_up_to(value: Seq<char>, max: int) -> Option<int> {
    match decimal(value) {
        Some(n) => if n <= max {
            Some(n as int)
        } else {
            None
        },
        None => None,
    }
}

/// Whether a setting is the one a name and a value state.
pub open spec fn setting_is(
    r: Result<Setting, SettingIssue>,
    name: Seq<char>,
    value: Seq<char>,
) -> bool {
    if name.len() == 0 || value.len() == 0 {
        r matches Err(SettingIssue::Usage)
    } else {
        match knob_of(name) {
            None => r matches Err(SettingIssue::Unknown(n)) && n@ == name,
            Some(Knob::Temperature) => r matches Ok(Setting::Temperature(v)) && v@ == value,
            Some(Knob::TopP) => r matches Ok(Setting::TopP(v)) && v@ == value,
            Some(Knob::MinP) => r matches Ok(Setting::MinP(v)) && v@ == value,
            Some(Knob::RepeatPenalty) => r matches Ok(Setting::RepeatPenalty(v)) && v@ == value,
            Some(Knob::TopK) => match number_up_to(value, usize::MAX as int) {
                Some(k) => r matches Ok(Setting::TopK(v)) && v == k,
                None => not_a_number(r, name, value),
            },
            Some(Knob::RepeatLastN) => match number_up_to(value, usize::MAX as int) {
                Some(k) => r matches Ok(Setting::RepeatLastN(v)) && v == k,
                None => not_a_number(r, name, value),
            },
            Some(Knob::Seed) => match number_up_to(value, u64::MAX as int) {
                Some(k) => r matches Ok(Setting::Seed(v)) && v == k,
                None => not_a_number(r, name, value),
            },
        }
    }
}

/// Whether a setting was refused because its value is not a number.
pub open spec fn not_a_number(
    r: Result<Setting, SettingIssue>,
    name: Seq<char>,
    value: Seq<char>,
) -> bool {
    r matches Err(SettingIssue::NotANumber { name: n, value: v }) && n@ == name && v@ == value
}

/// Where the first word of a part of a text begins and ends.
fn find_word(chars: &[char], from: usize, to: usize) -> (part: (usize, usize))
    requires
        from <= to <= chars@.len(),
    ensures
        from <= part.0 <= part.1 <= to,
        chars@.subrange(part.0 as int, part.1 as int) == first_word(
            chars@.subrange(from as int, to as int),
        ),
        chars@.subrange(part.1 as int, to as int) == after_first_word(
            chars@.subrange(from as int, to as int),
        ),
{
    let ghost whole = chars@.subrange(from as int, to as int);
    let mut i: usize = from;
    while i < to && chars[i].is_whitespace()
        invariant
            from <= i <= to <= chars@.len(),
            without_lead(chars@.subrange(i as int, to as int)) == without_lead(whole),
        decreases to - i,
    {
        assert(chars@.subrange(i as int, to as int).skip(1) =~= chars@.subrange(i + 1, to as int));
        i += 1;
    }
    let end: usize = word_end(chars, i, to);
    proof {
        let t = chars@.subrange(i as int, to as int);
        assert(without_lead(t) == t);
        assert(t.take(end - i) =~= chars@.subrange(i as int, end as int));
        assert(t.skip(end - i) =~= chars@.subrange(end as int, to as int));
    }
    (i, end)
}

/// Reads a setting: a name and a value, between white space. What follows is
/// ignored. A whole number that cannot be read is refused; a fraction is left as
/// text.
pub fn parse_setting(rest: &str) -> (r: Result<Setting, SettingIssue>)
    ensures
        setting_is(r, first_word(rest@), first_word(after_first_word(rest@))),
{
    let list = chars_of(rest);
    let chars = list.as_slice();
    let len: usize = chars.len();
    assert(chars@.subrange(0, len as int) =~= rest@);
    let (a, b) = find_word(chars, 0, len);
    let (c, d) = find_word(chars, b, len);
    if a == b || c == d {
        return Err(SettingIssue::Usage);
    }
    let name = string_of(chars, a, b);
    let value = string_of(chars, c, d);
    let n = name.as_str();
    if str_eq(n, "temperature") || str_eq(n, "temp") {
        Ok(Setting::Temperature(value))
    } else if str_eq(n, "top-p") || str_eq(n, "top_p") {
        Ok(Setting::TopP(value))
    } else if str_eq(n, "top-k") || str_eq(n, "top_k") {
        match parse_unsigned(chars, c, d, usize::MAX as u64) {
            Some(k) => Ok(Setting::TopK(k as usize)),
            None => Err(SettingIssue::NotANumber { name, value }),
        }
    } else if str_eq(n, "min-p") || str_eq(n, "min_p") {
        Ok(Setting::MinP(value))
    } else if str_eq(n, "repeat-penalty") || str_eq(n, "repeat_penalty") {
        Ok(Setting::RepeatPenalty(value))
    } else if str_eq(n, "repeat-last-n") || str_eq(n, "repeat_last_n") {
        match parse_unsigned(chars, c, d, usize::MAX as u64) {
            Some(k) => Ok(Setting::RepeatLastN(k as usize)),
            None => Err(SettingIssue::NotANumber { name, value }),
        }
    } else if str_eq(n, "seed") {
        match parse_unsigned(chars, c, d, u64::MAX) {
            Some(k) => Ok(Setting::Seed(k)),
            None => Err(SettingIssue::NotANumber { name, value }),
        }
    } else {
        Err(SettingIssue::Unknown(name))
    }
}

// ------------------------------------------------------- what a line means

/// A line whose first visible character is not a slash is a message: all of it
/// but the white space round it, whatever it says.
pub proof fn lines_without_a_slash_are_messages(line: Seq<char>, a: int, b: int)
    requires
        0 <= a < b <= line.len(),
        !char_whitespace(line[a]),
        !char_whitespace(line[b - 1]),
        forall|k: int| 0 <= k < a ==> char_whitespace(#[trigger] line[k]),
        forall|k: int| b <= k < line.len() ==> char_whitespace(#[trigger] line[k]),
        line[a] != '/',
    ensures
        command_of(trimmed(line)) == CommandView::Message(line.subrange(a, b)),
{
    trimming_keeps_what_lies_between(line, a, b);
    let msg = trimmed(line);
    lemma_word_bounds(msg);
    let word = msg.take(word_len(msg));
    assert(word.len() > 0 && word[0] == line[a]);
    reveal_command_words();
}

/// A blank line asks for nothing.
pub proof fn blank_lines_ask_for_nothing(line: Seq<char>)
    requires
        forall|k: int| 0 <= k < line.len() ==> char_whitespace(#[trigger] line[k]),
    ensures
        command_of(trimmed(line)) is Nothing,
{
    blank_texts_trim_to_nothing(line);
    let msg = trimmed(line);
    reveal_strlit("");
    assert(msg.take(word_len(msg)) =~= ""@);
}

/// The first word of a text is not longer than the text, ends where white space
/// begins, and holds none.
proof fn lemma_word_bounds(s: Seq<char>)
    ensures
        0 <= word_len(s) <= s.len(),
        forall|k: int| 0 <= k < word_len(s) ==> !char_whitespace(#[trigger] s[k]),
        word_len(s) < s.len() ==> char_whitespace(s[word_len(s)]),
    decreases s.len(),
{
    if s.len() > 0 && !char_whitespace(s[0]) {
        let t = s.skip(1);
        lemma_word_bounds(t);
        assert forall|k: int| 0 <= k < word_len(s) implies !char_whitespace(#[trigger] s[k]) by {
            if k > 0 {
                assert(t[k - 1] == s[k]);
            }
        }
        if word_len(s) < s.len() {
            assert(t[word_len(t)] == s[word_len(s)]);
        }
    }
}

/// What the words of the commands are made of.
proof fn reveal_command_words()
    ensures
        ""@.len() == 0,
        "/quit"@ == seq!['/', 'q', 'u', 'i', 't'],
        "/exit"@ == seq!['/', 'e', 'x', 'i', 't'],
        "/q"@ == seq!['/', 'q'],
        "/help"@ == seq!['/', 'h', 'e', 'l', 'p'],
        "/?"@ == seq!['/', '?'],
        "/reset"@ == seq!['/', 'r', 'e', 's', 'e', 't'],
        "/system"@ == seq!['/', 's', 'y', 's', 't', 'e', 'm'],
        "/params"@ == seq!['/', 'p', 'a', 'r', 'a', 'm', 's'],
        "/set"@ == seq!['/', 's', 'e', 't'],
        "/stats"@ == seq!['/', 's', 't', 'a', 't', 's'],
{
    reveal_strlit("");
    reveal_strlit("/quit");
    reveal_strlit("/exit");
    reveal_strlit("/q");
    reveal_strlit("/help");
    reveal_strlit("/?");
    reveal_strlit("/reset");
    reveal_strlit("/system");
    reveal_strlit("/params");
    reveal_strlit("/set");
    reveal_strlit("/stats");
    assert("/quit"@ =~= seq!['/', 'q', 'u', 'i', 't']);
    assert("/exit"@ =~= seq!['/', 'e', 'x', 'i', 't']);
    assert("/q"@ =~= seq!['/', 'q']);
    assert("/help"@ =~= seq!['/', 'h', 'e', 'l', 'p']);
    assert("/?"@ =~= seq!['/', '?']);
    assert("/reset"@ =~= seq!['/', 'r', 'e', 's', 'e', 't']);
    assert("/system"@ =~= seq!['/', 's', 'y', 's', 't', 'e', 'm']);
    assert("/params"@ =~= seq!['/', 'p', 'a', 'r', 'a', 'm', 's']);
    assert("/set"@ =~= seq!['/', 's', 'e', 't']);
    assert("/stats"@ =~= seq!['/', 's', 't', 'a', 't', 's']);
}

/// Whether a text is a word: it holds no white space, and something.
pub open spec fn is_word(word: Seq<char>) -> bool {
    word.len() > 0 && forall|k: int| 0 <= k < word.len() ==> !char_whitespace(#[trigger] word[k])
}

/// A line begins with a word and goes on with some text behind white space: what
/// the word is decides. A command is what it is whatever follows it, two of them
/// take what follows, and any other word begins a message.
pub proof fn the_first_word_decides(word: Seq<char>, gap: char, rest: Seq<char>)
    requires
        is_word(word),
        char_whitespace(gap),
        rest.len() > 0,
        !char_whitespace(rest[0]),
        !char_whitespace(rest[rest.len() - 1]),
    ensures
        ({
            let line = word + seq![gap] + rest;
            let command = command_of(trimmed(line));
            &&& command is Quit <==> word == "/quit"@ || word == "/exit"@ || word == "/q"@
            &&& command is Help <==> word == "/help"@ || word == "/?"@
            &&& command is Reset <==> word == "/reset"@
            &&& command is Params <==> word == "/params"@
            &&& command is Stats <==> word == "/stats"@
            &&& word == "/system"@ <==> command is SetSystem
            &&& word == "/system"@ ==> command == CommandView::SetSystem(rest)
            &&& word == "/set"@ <==> command is Change
            &&& word == "/set"@ ==> command == CommandView::Change(rest)
            &&& !(command is ShowSystem) && !(command is Nothing)
            &&& command is Message ==> command == CommandView::Message(line)
        }),
{
    let line = word + seq![gap] + rest;
    let n = word.len() as int;
    assert(line[0] == word[0] && line[line.len() - 1] == rest[rest.len() - 1]);
    assert(line.subrange(0, line.len() as int) =~= line);
    trimming_keeps_what_lies_between(line, 0, line.len() as int);
    assert forall|i: int| 0 <= i < n implies !char_whitespace(#[trigger] line[i]) by {
        assert(line[i] == word[i]);
    }
    assert(line[n] == gap);
    lemma_word_len(line, n);
    assert(line.take(n) =~= word);
    assert(line.skip(n + 1) =~= rest);
    assert(rest.subrange(0, rest.len() as int) =~= rest);
    trimming_keeps_what_lies_between(rest, 0, rest.len() as int);
    reveal_command_words();
    lemma_command_words_differ(word);
}

/// No text is two of the command words.
proof fn lemma_command_words_differ(w: Seq<char>)
    ensures
        w == "/quit"@ || w == "/exit"@ || w == "/q"@ ==> w != "/help"@ && w != "/?"@ && w
            != "/reset"@ && w != "/system"@ && w != "/params"@ && w != "/set"@ && w != "/stats"@,
        w == "/help"@ || w == "/?"@ ==> w != "/reset"@ && w != "/system"@ && w != "/params"@ && w
            != "/set"@ && w != "/stats"@,
        w == "/reset"@ ==> w != "/system"@ && w != "/params"@ && w != "/set"@ && w != "/stats"@,
        w == "/system"@ ==> w != "/params"@ && w != "/set"@ && w != "/stats"@,
        w == "/params"@ ==> w != "/set"@ && w != "/stats"@,
        w == "/set"@ ==> w != "/stats"@,
{
    reveal_command_words();
}

/// A line that is one word: the commands as above, with nothing to take; and the
/// system prompt is shown.
pub proof fn a_word_by_itself_decides(word: Seq<char>)
    requires
        is_word(word),
    ensures
        ({
            let command = command_of(trimmed(word));
            &&& command is Quit <==> word == "/quit"@ || word == "/exit"@ || word == "/q"@
            &&& command is Help <==> word == "/help"@ || word == "/?"@
            &&& command is Reset <==> word == "/reset"@
            &&& command is Params <==> word == "/params"@
            &&& command is Stats <==> word == "/stats"@
            &&& command is ShowSystem <==> word == "/system"@
            &&& word == "/set"@ <==> command is Change
            &&& word == "/set"@ ==> command == CommandView::Change(Seq::empty())
            &&& !(command is SetSystem) && !(command is Nothing)
            &&& command is Message ==> command == CommandView::Message(word)
        }),
{
    let n = word.len() as int;
    assert(word.subrange(0, n) =~= word);
    trimming_keeps_what_lies_between(word, 0, n);
    lemma_word_len(word, n);
    assert(word.take(n) =~= word);
    reveal_command_words();
    lemma_command_words_differ(word);
}

/// White space round a line changes nothing.
pub proof fn white_space_round_a_line_does_not_matter(line: Seq<char>)
    ensures
        command_of(trimmed(line)) == command_of(trimmed(trimmed(line))),
{
    trimmed_texts_have_visible_ends(line);
}

/// A turn in the markup, written out: the first with the system prompt before it,
/// any other closing the answer that came before.
pub proof fn turns_are_marked_up(system: Seq<char>, user: Seq<char>)
    ensures
        turn_text(system, user, true) == "<|im_start|>system\n"@ + system
            + "<|im_end|>\n<|im_start|>user\n"@ + user
            + "<|im_end|>\n<|im_start|>assistant\n"@,
        turn_text(system, user, false) == "<|im_end|>\n<|im_start|>user\n"@ + user
            + "<|im_end|>\n<|im_start|>assistant\n"@,
{
    reveal_strlit("<|im_start|>");
    reveal_strlit("<|im_end|>");
    reveal_strlit("\n");
    reveal_strlit("system\n");
    reveal_strlit("user\n");
    reveal_strlit("assistant\n");
    reveal_strlit("<|im_start|>system\n");
    reveal_strlit("<|im_end|>\n<|im_start|>user\n");
    reveal_strlit("<|im_end|>\n<|im_start|>assistant\n");
    let open = "<|im_start|>system\n"@;
    let middle = "<|im_end|>\n<|im_start|>user\n"@;
    let close = "<|im_end|>\n<|im_start|>assistant\n"@;
    assert(open =~= im_start() + "system\n"@);
    assert(middle =~= im_end() + "\n"@ + im_start() + "user\n"@);
    assert(close =~= im_end() + "\n"@ + im_start() + "assistant\n"@);
    assert(turn_text(system, user, true) =~= open + system + middle + user + close);
    assert(turn_text(system, user, false) =~= middle + user + close);
}

// ------------------------------------------------------- what a setting is

/// A name and a value between white space are read as they stand, and what
/// follows is not read.
pub proof fn settings_are_two_words(
    lead: Seq<char>,
    name: Seq<char>,
    gap: Seq<char>,
    value: Seq<char>,
    more: Seq<char>,
)
    requires
        forall|k: int| 0 <= k < lead.len() ==> char_whitespace(#[trigger] lead[k]),
        is_word(name),
        gap.len() > 0,
        forall|k: int| 0 <= k < gap.len() ==> char_whitespace(#[trigger] gap[k]),
        is_word(value),
        more.len() > 0 ==> char_whitespace(more[0]),
    ensures
        first_word(lead + name + gap + value + more) == name,
        first_word(after_first_word(lead + name + gap + value + more)) == value,
{
    let all = lead + name + gap + value + more;
    let tail = gap + value + more;
    lemma_first_word(lead, name, tail);
    assert(all =~= lead + name + tail);
    lemma_first_word(gap, value, more);
}

proof fn lemma_first_word(lead: Seq<char>, word: Seq<char>, tail: Seq<char>)
    requires
        forall|k: int| 0 <= k < lead.len() ==> char_whitespace(#[trigger] lead[k]),
        is_word(word),
        tail.len() > 0 ==> char_whitespace(tail[0]),
    ensures
        first_word(lead + word + tail) == word,
        after_first_word(lead + word + tail) == tail,
    decreases lead.len(),
{
    let s = lead + word + tail;
    if lead.len() > 0 {
        assert(char_whitespace(lead[0]) && s[0] == lead[0]);
        let rest = lead.skip(1);
        assert(s.skip(1) =~= rest + word + tail);
        lemma_first_word(rest, word, tail);
    } else {
        assert(s =~= word + tail);
        let n = word.len() as int;
        assert(s[0] == word[0]);
        assert forall|i: int| 0 <= i < n implies !char_whitespace(#[trigger] s[i]) by {
            assert(s[i] == word[i]);
        }
        if n < s.len() {
            assert(s[n] == tail[0]);
        }
        lemma_word_len(s, n);
        assert(s.take(n) =~= word);
        assert(s.skip(n) =~= tail);
    }
}

/// Each setting is changed under its own names and no others.
pub proof fn settings_have_their_names(r: Result<Setting, SettingIssue>, name: Seq<char>, value: Seq<char>)
    requires
        name.len() > 0,
        value.len() > 0,
        setting_is(r, name, value),
    ensures
        r matches Ok(Setting::Temperature(v)) ==> v@ == value,
        r matches Ok(Setting::TopP(v)) ==> v@ == value,
        r matches Ok(Setting::MinP(v)) ==> v@ == value,
        r matches Ok(Setting::RepeatPenalty(v)) ==> v@ == value,
        name == "temperature"@ || name == "temp"@ <==> r matches Ok(Setting::Temperature(_)),
        name == "top-p"@ || name == "top_p"@ <==> r matches Ok(Setting::TopP(_)),
        name == "min-p"@ || name == "min_p"@ <==> r matches Ok(Setting::MinP(_)),
        name == "repeat-penalty"@ || name == "repeat_penalty"@ <==> r matches Ok(
            Setting::RepeatPenalty(_),
        ),
        r matches Ok(Setting::TopK(_)) ==> name == "top-k"@ || name == "top_k"@,
        name == "top-k"@ || name == "top_k"@ ==> (r matches Ok(Setting::TopK(_))) || (r matches Err(
            SettingIssue::NotANumber { .. },
        )),
        r matches Ok(Setting::RepeatLastN(_)) ==> name == "repeat-last-n"@ || name
            == "repeat_last_n"@,
        name == "repeat-last-n"@ || name == "repeat_last_n"@ ==> (r matches Ok(
            Setting::RepeatLastN(_),
        )) || (r matches Err(SettingIssue::NotANumber { .. })),
        r matches Ok(Setting::Seed(_)) ==> name == "seed"@,
        name == "seed"@ ==> (r matches Ok(Setting::Seed(_))) || (r matches Err(
            SettingIssue::NotANumber { .. },
        )),
{
    reveal_strlit("temperature");
    reveal_strlit("temp");
    reveal_strlit("top-p");
    reveal_strlit("top_p");
    reveal_strlit("top-k");
    reveal_strlit("top_k");
    reveal_strlit("min-p");
    reveal_strlit("min_p");
    reveal_strlit("repeat-penalty");
    reveal_strlit("repeat_penalty");
    reveal_strlit("repeat-last-n");
    reveal_strlit("repeat_last_n");
    reveal_strlit("seed");
    assert("top-p"@[4] == 'p' && "top_p"@[4] == 'p' && "top-k"@[4] == 'k' && "top_k"@[4] == 'k');
    assert("min-p"@[0] == 'm' && "min_p"@[0] == 'm' && "top-p"@[0] == 't' && "top_p"@[0] == 't');
    assert("top-k"@[0] == 't' && "top_k"@[0] == 't');
    assert("seed"@[0] == 's' && "temp"@[0] == 't');
}

/// A whole number that was written out in digits is the value that is set.
pub proof fn whole_settings_are_their_digits(r: Result<Setting, SettingIssue>, n: nat)
    requires
        n <= u64::MAX,
        n <= usize::MAX,
    ensures
        setting_is(r, "top-k"@, decimal_text(n)) ==> r == Ok::<Setting, SettingIssue>(
            Setting::TopK(n as usize),
        ),
        setting_is(r, "repeat-last-n"@, decimal_text(n)) ==> r == Ok::<Setting, SettingIssue>(
            Setting::RepeatLastN(n as usize),
        ),
        setting_is(r, "seed"@, decimal_text(n)) ==> r == Ok::<Setting, SettingIssue>(
            Setting::Seed(n as u64),
        ),
{
    decimal_round_trip(n);
    reveal_strlit("temperature");
    reveal_strlit("temp");
    reveal_strlit("top-p");
    reveal_strlit("top_p");
    reveal_strlit("top-k");
    reveal_strlit("top_k");
    reveal_strlit("min-p");
    reveal_strlit("min_p");
    reveal_strlit("repeat-penalty");
    reveal_strlit("repeat_penalty");
    reveal_strlit("repeat-last-n");
    reveal_strlit("repeat_last_n");
    reveal_strlit("seed");
    assert("top-p"@[4] == 'p' && "top_p"@[4] == 'p' && "top-k"@[4] == 'k');
    assert("temp"@[0] == 't' && "seed"@[0] == 's');
    assert("repeat-last-n"@[0] == 'r' && "repeat-last-n"@.len() == 13);
}

} // verus!
