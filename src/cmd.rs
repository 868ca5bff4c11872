use vstd::prelude::*;

verus! {

/// Numeric type of a key.
pub type KeyType = i32;

/// Numeric type of a value.
pub type ValueType = i32;

// ---------------------------------------------------------------------------
// Whitespace and tokens
// ---------------------------------------------------------------------------

/// A character with the Unicode `White_Space` property, the set that
/// `char::is_whitespace` and `str::split_whitespace` go by.
pub open spec fn is_space(c: char) -> bool {
    ('\u{9}' <= c && c <= '\u{d}') || c == ' ' || c == '\u{85}' || c == '\u{a0}' || c
        == '\u{1680}' || ('\u{2000}' <= c && c <= '\u{200a}') || c == '\u{2028}' || c
        == '\u{2029}' || c == '\u{202f}' || c == '\u{205f}' || c == '\u{3000}'
}

/// A line that holds only whitespace (or nothing at all).
pub open spec fn is_blank(s: Seq<char>) -> bool {
    forall|i: int| 0 <= i < s.len() ==> is_space(#[trigger] s[i])
}

/// The maximal runs of non-whitespace characters of `s`, in order.
/// Each character extends the last token when it follows a non-whitespace
/// character, and starts a new one otherwise.
pub open spec fn tokens_of(s: Seq<char>) -> Seq<Seq<char>>
    decreases s.len(),
{
    if s.len() == 0 {
        seq![]
    } else {
        let prev = tokens_of(s.drop_last());
        let c = s.last();
        if is_space(c) {
            prev
        } else if s.len() >= 2 && !is_space(s[s.len() - 2]) {
            prev.update(prev.len() - 1, prev.last().push(c))
        } else {
            prev.push(seq![c])
        }
    }
}

/// The text of each token of a token stream.
pub open spec fn token_texts(tokens: Seq<&str>) -> Seq<Seq<char>> {
    tokens.map_values(|t: &str| t@)
}

/// Whether the character is whitespace.
pub fn char_is_space(c: char) -> (r: bool)
    ensures
        r == is_space(c),
{
    ('\u{9}' <= c && c <= '\u{d}') || c == ' ' || c == '\u{85}' || c == '\u{a0}' || c
        == '\u{1680}' || ('\u{2000}' <= c && c <= '\u{200a}') || c == '\u{2028}' || c
        == '\u{2029}' || c == '\u{202f}' || c == '\u{205f}' || c == '\u{3000}'
}

/// A line has no tokens exactly when it is blank.
pub proof fn lemma_no_tokens_iff_blank(s: Seq<char>)
    ensures
        tokens_of(s).len() == 0 <==> is_blank(s),
    decreases s.len(),
{
    if s.len() > 0 {
        let p = s.drop_last();
        lemma_no_tokens_iff_blank(p);
        if is_space(s.last()) {
            if is_blank(p) {
                assert forall|i: int| 0 <= i < s.len() implies is_space(#[trigger] s[i]) by {
                    if i < p.len() {
                        assert(s[i] == p[i]);
                    }
                }
            } else {
                let i = choose|i: int| 0 <= i < p.len() && !is_space(#[trigger] p[i]);
                assert(s[i] == p[i]);
            }
        } else {
            assert(!is_space(s[s.len() - 1]));
            if s.len() >= 2 && !is_space(s[s.len() - 2]) {
                assert(p[p.len() - 1] == s[s.len() - 2]);
                assert(!is_blank(p));
            }
        }
    }
}

/// Splits a line into its whitespace-separated tokens.
pub fn split_tokens(line: &str) -> (r: Vec<&str>)
    ensures
        token_texts(r@) == tokens_of(line@),
{
    let n = line.unicode_len();
    let mut out: Vec<&str> = Vec::new();
    let mut in_word = false;
    let mut start: usize = 0;
    let mut i: usize = 0;
    while i < n
        invariant
            n == line@.len(),
            0 <= start <= i <= n,
            in_word ==> start < i && !is_space(line@[i - 1]) && tokens_of(line@.subrange(0, i as int))
                == token_texts(out@).push(line@.subrange(start as int, i as int)),
            !in_word ==> (i == 0 || is_space(line@[i - 1])) && tokens_of(
                line@.subrange(0, i as int),
            ) == token_texts(out@),
        decreases n - i,
    {
        let c = line.get_char(i);
        let ghost pre = line@.subrange(0, i as int);
        let ghost next = line@.subrange(0, i + 1);
        assert(next.drop_last() == pre);
        assert(next.last() == c);
        if char_is_space(c) {
            if in_word {
                let t = line.substring_char(start, i);
                let ghost before = out@;
                out.push(t);
                assert(token_texts(out@) =~= token_texts(before).push(t@));
                in_word = false;
            }
        } else {
            if in_word {
                assert(next[next.len() - 2] == line@[i - 1]);
                let ghost prev = tokens_of(pre);
                assert(prev.last() == line@.subrange(start as int, i as int));
                assert(line@.subrange(start as int, i as int).push(c) =~= line@.subrange(
                    start as int,
                    i + 1,
                ));
                assert(tokens_of(next) =~= token_texts(out@).push(
                    line@.subrange(start as int, i + 1),
                ));
            } else {
                assert(next.len() >= 2 ==> next[next.len() - 2] == line@[i - 1]);
                assert(line@.subrange(i as int, i + 1) =~= seq![c]);
                start = i;
                in_word = true;
            }
        }
        i += 1;
    }
    assert(line@.subrange(0, n as int) =~= line@);
    if in_word {
        let t = line.substring_char(start, n);
        let ghost before = out@;
        out.push(t);
        assert(token_texts(out@) =~= token_texts(before).push(t@));
    }
    out
}

// ---------------------------------------------------------------------------
// Decimal numbers
// ---------------------------------------------------------------------------

pub open spec fn is_digit(c: char) -> bool {
    '0' <= c && c <= '9'
}

/// The numeric value of a character that is an ASCII decimal digit.
pub open spec fn digit_of(c: char) -> int {
    c as int - '0' as int
}

pub open spec fn all_digits(s: Seq<char>) -> bool {
    forall|i: int| 0 <= i < s.len() ==> is_digit(#[trigger] s[i])
}

/// The value of a string of decimal digits, most significant first.
pub open spec fn digits_value(s: Seq<char>) -> int
    decreases s.len(),
{
    if s.len() == 0 {
        0
    } else {
        digits_value(s.drop_last()) * 10 + digit_of(s.last())
    }
}

/// The integer that `s` writes: an optional `+` or `-` followed by one or
/// more decimal digits, and nothing else.
pub open spec fn decimal_value(s: Seq<char>) -> Option<int> {
    if s.len() > 0 && (s[0] == '+' || s[0] == '-') {
        let d = s.drop_first();
        if d.len() > 0 && all_digits(d) {
            if s[0] == '-' {
                Some(-digits_value(d))
            } else {
                Some(digits_value(d))
            }
        } else {
            None
        }
    } else if s.len() > 0 && all_digits(s) {
        Some(digits_value(s))
    } else {
        None
    }
}

/// The number that `s` writes, where it is one and fits in the numeric type
/// of keys and values.
pub open spec fn number_of(s: Seq<char>) -> Option<i32> {
    match decimal_value(s) {
        Some(v) => if i32::MIN <= v <= i32::MAX {
            Some(v as i32)
        } else {
            None
        },
        None => None,
    }
}

proof fn lemma_digits_value_nonneg(s: Seq<char>)
    requires
        all_digits(s),
    ensures
        digits_value(s) >= 0,
    decreases s.len(),
{
    if s.len() > 0 {
        assert(all_digits(s.drop_last())) by {
            assert forall|i: int| 0 <= i < s.len() - 1 implies is_digit(
                #[trigger] s.drop_last()[i],
            ) by {
                assert(s.drop_last()[i] == s[i]);
            }
        }
        lemma_digits_value_nonneg(s.drop_last());
        assert(is_digit(s[s.len() - 1]));
    }
}

/// A prefix of a digit string never has a larger value than the whole.
proof fn lemma_prefix_value_le(s: Seq<char>, k: int)
    requires
        all_digits(s),
        0 <= k <= s.len(),
    ensures
        digits_value(s.subrange(0, k)) <= digits_value(s),
    decreases s.len(),
{
    assert(s.subrange(0, s.len() as int) =~= s);
    if k < s.len() {
        let p = s.drop_last();
        assert(all_digits(p)) by {
            assert forall|i: int| 0 <= i < p.len() implies is_digit(#[trigger] p[i]) by {
                assert(p[i] == s[i]);
            }
        }
        lemma_prefix_value_le(p, k);
        lemma_digits_value_nonneg(p);
        assert(p.subrange(0, k) =~= s.subrange(0, k));
        assert(is_digit(s[s.len() - 1]));
    }
}

/// Reads a decimal number that fits in the numeric type of keys and values.
pub fn parse_number(s: &str) -> (r: Option<i32>)
    ensures
        r == number_of(s@),
{
    let n = s.unicode_len();
    if n == 0 {
        return None;
    }
    let c0 = s.get_char(0);
    let signed = c0 == '+' || c0 == '-';
    let start: usize = if signed {
        1
    } else {
        0
    };
    let ghost d = s@.subrange(start as int, n as int);
    assert(signed ==> d =~= s@.drop_first());
    assert(!signed ==> d =~= s@);
    if start == n {
        return None;
    }
    let limit: u64 = 2147483648;
    let mut acc: u64 = 0;
    let mut i: usize = start;
    while i < n
        invariant
            n == s@.len(),
            start < n,
            start <= i <= n,
            d == s@.subrange(start as int, n as int),
            c0 == s@[0],
            signed == (c0 == '+' || c0 == '-'),
            signed ==> d == s@.drop_first(),
            !signed ==> d == s@,
            all_digits(s@.subrange(start as int, i as int)),
            acc == digits_value(s@.subrange(start as int, i as int)),
            acc <= limit,
            limit == 2147483648,
        decreases n - i,
    {
        let c = s.get_char(i);
        assert(d[i - start] == c);
        if !('0' <= c && c <= '9') {
            assert(!all_digits(d));
            return None;
        }
        let ghost pre = s@.subrange(start as int, i as int);
        let ghost next = s@.subrange(start as int, i + 1);
        assert(next.drop_last() =~= pre);
        assert(next.last() == c);
        assert(all_digits(next)) by {
            assert forall|j: int| 0 <= j < next.len() implies is_digit(#[trigger] next[j]) by {
                if j < pre.len() {
                    assert(next[j] == pre[j]);
                }
            }
        }
        acc = acc * 10 + (c as u32 - '0' as u32) as u64;
        i += 1;
        if acc > limit {
            proof {
                if all_digits(d) {
                    assert(d.subrange(0, i - start) =~= next);
                    lemma_prefix_value_le(d, i - start);
                }
            }
            return None;
        }
    }
    assert(d =~= s@.subrange(start as int, i as int));
    if c0 == '-' {
        Some((0 - acc as i64) as i32)
    } else if acc > 2147483647 {
        None
    } else {
        Some(acc as i32)
    }
}

/// Whether the token can be read as a key.
pub fn is_valid_key(int_str: &str) -> (r: bool)
    ensures
        r == number_of(int_str@) is Some,
{
    parse_number(int_str).is_some()
}

/// Whether the token can be read as a value.
pub fn is_valid_value(int_str: &str) -> (r: bool)
    ensures
        r == number_of(int_str@) is Some,
{
    parse_number(int_str).is_some()
}

// ---------------------------------------------------------------------------
// Commands
// ---------------------------------------------------------------------------

/// A command of the language that the operator types.
#[derive(Debug, PartialEq, Eq)]
pub enum Command {
    /// Insert a key-value pair; an older value of the key is replaced.
    Put(KeyType, ValueType),
    /// Fetch the value of the key, if the key is present.
    Get(KeyType),
    /// Fetch the values of the keys in `[start, end)`.
    Range(KeyType, KeyType),
    /// Remove the pair of the key.
    Delete(KeyType),
    /// Load the key-value pairs stored in a file.
    Load(String),
    /// Print the state of the database.
    PrintStats,
    /// End the session.
    Quit,
    /// Print the usage text.
    Help,
}

/// What a command stands for, with the path of `Load` as its characters.
pub enum CommandModel {
    Put(KeyType, ValueType),
    Get(KeyType),
    Range(KeyType, KeyType),
    Delete(KeyType),
    Load(Seq<char>),
    PrintStats,
    Quit,
    Help,
}

impl View for Command {
    type V = CommandModel;

    open spec fn view(&self) -> CommandModel {
        match self {
            Command::Put(k, v) => CommandModel::Put(*k, *v),
            Command::Get(k) => CommandModel::Get(*k),
            Command::Range(a, b) => CommandModel::Range(*a, *b),
            Command::Delete(k) => CommandModel::Delete(*k),
            Command::Load(p) => CommandModel::Load(p@),
            Command::PrintStats => CommandModel::PrintStats,
            Command::Quit => CommandModel::Quit,
            Command::Help => CommandModel::Help,
        }
    }
}

/// The model of an optional command.
pub open spec fn command_view(c: Option<Command>) -> Option<CommandModel> {
    match c {
        Some(c) => Some(c@),
        None => None,
    }
}

/// Whether a token is the long form or the one-letter alias of a keyword.
pub open spec fn is_word(t: Seq<char>, long: Seq<char>, short: Seq<char>) -> bool {
    t == long || t == short
}

/// Whether the first token is one of the eight keywords or their aliases.
pub open spec fn is_known_keyword(t: Seq<char>) -> bool {
    is_word(t, "put"@, "p"@) || is_word(t, "get"@, "g"@) || is_word(t, "range"@, "r"@)
        || is_word(t, "delete"@, "d"@) || is_word(t, "load"@, "l"@) || is_word(
        t,
        "print"@,
        "s"@,
    ) || is_word(t, "quit"@, "q"@) || is_word(t, "help"@, "h"@)
}

/// Whether the token stream asks to load a file, so that the answer
/// depends on whether its second token names an existing regular file.
pub open spec fn needs_file_check(toks: Seq<Seq<char>>) -> bool {
    toks.len() == 2 && is_word(toks[0], "load"@, "l"@)
}

/// The command that a token stream denotes, if any. `is_file` says whether
/// the second token names an existing regular file; only `load` asks.
pub open spec fn grammar(toks: Seq<Seq<char>>, is_file: bool) -> Option<CommandModel> {
    if toks.len() == 0 {
        None
    } else {
        let k = toks[0];
        let n = toks.len();
        if is_word(k, "put"@, "p"@) {
            if n == 3 && number_of(toks[1]) is Some && number_of(toks[2]) is Some {
                Some(CommandModel::Put(number_of(toks[1])->0, number_of(toks[2])->0))
            } else {
                None
            }
        } else if is_word(k, "get"@, "g"@) {
            if n == 2 && number_of(toks[1]) is Some {
                Some(CommandModel::Get(number_of(toks[1])->0))
            } else {
                None
            }
        } else if is_word(k, "range"@, "r"@) {
            if n == 3 && number_of(toks[1]) is Some && number_of(toks[2]) is Some {
                Some(CommandModel::Range(number_of(toks[1])->0, number_of(toks[2])->0))
            } else {
                None
            }
        } else if is_word(k, "delete"@, "d"@) {
            if n == 2 && number_of(toks[1]) is Some {
                Some(CommandModel::Delete(number_of(toks[1])->0))
            } else {
                None
            }
        } else if is_word(k, "load"@, "l"@) {
            if n == 2 && is_file {
                Some(CommandModel::Load(toks[1]))
            } else {
                None
            }
        } else if is_word(k, "print"@, "s"@) {
            if n == 1 {
                Some(CommandModel::PrintStats)
            } else {
                None
            }
        } else if is_word(k, "quit"@, "q"@) {
            if n == 1 {
                Some(CommandModel::Quit)
            } else {
                None
            }
        } else if is_word(k, "help"@, "h"@) {
            if n == 1 {
                Some(CommandModel::Help)
            } else {
                None
            }
        } else {
            None
        }
    }
}

/// Whether two strings hold the same characters.
fn same_text(a: &str, b: &str) -> (r: bool)
    ensures
        r == (a@ == b@),
{
    let n = a.unicode_len();
    if n != b.unicode_len() {
        return false;
    }
    let mut i: usize = 0;
    while i < n
        invariant
            n == a@.len() == b@.len(),
            i <= n,
            a@.subrange(0, i as int) == b@.subrange(0, i as int),
        decreases n - i,
    {
        if a.get_char(i) != b.get_char(i) {
            return false;
        }
        assert(a@.subrange(0, i + 1) =~= a@.subrange(0, i as int).push(a@[i as int]));
        assert(b@.subrange(0, i + 1) =~= b@.subrange(0, i as int).push(b@[i as int]));
        i += 1;
    }
    assert(a@ =~= a@.subrange(0, n as int));
    assert(b@ =~= b@.subrange(0, n as int));
    true
}

fn word_is(t: &str, long: &str, short: &str) -> (r: bool)
    ensures
        r == is_word(t@, long@, short@),
{
    same_text(t, long) || same_text(t, short)
}

/// Relies on std::path::Path::is_file: whether the path names an existing
/// regular file. The answer depends on the file system at the time of the
/// call, so nothing is promised of it.
#[verifier::external_body]
fn path_is_file(path: &str) -> (r: bool) {
    std::path::Path::new(path).is_file()
}

impl Command {
    /// The command that the tokens denote, where `is_file` tells whether the
    /// second token names an existing regular file.
    pub fn from_tokens_with(tokens: &Vec<&str>, is_file: bool) -> (r: Option<Command>)
        ensures
            command_view(r) == grammar(token_texts(tokens@), is_file),
    {
        let ghost toks = token_texts(tokens@);
        let n = tokens.len();
        if n == 0 {
            return None;
        }
        let k = tokens[0];
        assert(toks[0] == k@);
        if n >= 2 {
            assert(toks[1] == tokens@[1]@);
        }
        if n >= 3 {
            assert(toks[2] == tokens@[2]@);
        }
        if word_is(k, "put", "p") {
            if n == 3 && is_valid_key(tokens[1]) && is_valid_value(tokens[2]) {
                return Some(
                    Command::Put(parse_number(tokens[1]).unwrap(), parse_number(tokens[2]).unwrap()),
                );
            }
            None
        } else if word_is(k, "get", "g") {
            if n == 2 && is_valid_key(tokens[1]) {
                return Some(Command::Get(parse_number(tokens[1]).unwrap()));
            }
            None
        } else if word_is(k, "range", "r") {
            if n == 3 && is_valid_key(tokens[1]) && is_valid_key(tokens[2]) {
                return Some(
                    Command::Range(
                        parse_number(tokens[1]).unwrap(),
                        parse_number(tokens[2]).unwrap(),
                    ),
                );
            }
            None
        } else if word_is(k, "delete", "d") {
            if n == 2 && is_valid_key(tokens[1]) {
                return Some(Command::Delete(parse_number(tokens[1]).unwrap()));
            }
            None
        } else if word_is(k, "load", "l") {
            if n == 2 && is_file {
                return Some(Command::Load(tokens[1].to_owned()));
            }
            None
        } else if word_is(k, "print", "s") {
            if n == 1 {
                return Some(Command::PrintStats);
            }
            None
        } else if word_is(k, "quit", "q") {
            if n == 1 {
                return Some(Command::Quit);
            }
            None
        } else if word_is(k, "help", "h") {
            if n == 1 {
                return Some(Command::Help);
            }
            None
        } else {
            None
        }
    }

    /// The command that the tokens denote. For `load` with one argument the
    /// file system is asked whether the argument names an existing regular
    /// file; every other stream is answered by the grammar alone.
    pub fn from_tokens(tokens: &Vec<&str>) -> (r: Option<Command>)
        ensures
            exists|is_file: bool| command_view(r) == #[trigger] grammar(token_texts(tokens@), is_file),
            !needs_file_check(token_texts(tokens@)) ==> command_view(r) == grammar(
                token_texts(tokens@),
                false,
            ),
    {
        let checked = tokens.len() == 2 && word_is(tokens[0], "load", "l");
        let is_file = if checked {
            path_is_file(tokens[1])
        } else {
            false
        };
        Command::from_tokens_with(tokens, is_file)
    }
}

/// A token stream whose first token is none of the eight keywords or their
/// aliases denotes no command, whatever the file system holds.
pub proof fn lemma_unknown_keyword_rejected(toks: Seq<Seq<char>>, is_file: bool)
    requires
        toks.len() > 0,
        !is_known_keyword(toks[0]),
    ensures
        grammar(toks, is_file) is None,
{
}

/// `range` takes any two numbers, in either order: the grammar does not ask
/// that the start come before the end.
pub proof fn lemma_range_any_order(toks: Seq<Seq<char>>, is_file: bool)
    requires
        toks.len() == 3,
        is_word(toks[0], "range"@, "r"@),
        number_of(toks[1]) is Some,
        number_of(toks[2]) is Some,
    ensures
        grammar(toks, is_file) == Some(
            CommandModel::Range(number_of(toks[1])->0, number_of(toks[2])->0),
        ),
{
    reveal_strlit("put");
    reveal_strlit("p");
    reveal_strlit("get");
    reveal_strlit("g");
    reveal_strlit("range");
    reveal_strlit("r");
    assert(toks[0][0] == 'r') by {
        assert("range"@[0] == 'r');
        assert("r"@[0] == 'r');
    }
    assert("put"@[0] == 'p' && "p"@[0] == 'p' && "get"@[0] == 'g' && "g"@[0] == 'g');
}

} // verus!
