use vstd::prelude::*;

use crate::cmd::{
    grammar, is_blank, lemma_no_tokens_iff_blank, needs_file_check, split_tokens, token_texts,
    tokens_of, Command, CommandModel,
};

verus! {

/// What the line source hands over for one prompt.
pub enum Input {
    /// A line that the operator typed.
    Line(String),
    /// The operator cancelled the line being typed.
    Interrupted,
    /// The line source has no more input.
    EndOfInput,
    /// The line source failed in some other way.
    Failed,
}

/// What the driver is to do after one input.
#[derive(Debug, PartialEq, Eq)]
pub enum Action {
    /// Nothing: the line was blank, or the session is over.
    Idle,
    /// Tell the operator that the line is not a command.
    Unrecognized,
    /// Remind the operator how to leave the session.
    Hint,
    /// Report that the line source failed.
    ReportError,
    /// Print the usage text.
    ShowHelp,
    /// Hand the command to the storage engine.
    Forward(Command),
    /// End the session.
    Quit,
}

/// What an action stands for.
pub enum ActionModel {
    Idle,
    Unrecognized,
    Hint,
    ReportError,
    ShowHelp,
    Forward(CommandModel),
    Quit,
}

impl View for Action {
    type V = ActionModel;

    open spec fn view(&self) -> ActionModel {
        match self {
            Action::Idle => ActionModel::Idle,
            Action::Unrecognized => ActionModel::Unrecognized,
            Action::Hint => ActionModel::Hint,
            Action::ReportError => ActionModel::ReportError,
            Action::ShowHelp => ActionModel::ShowHelp,
            Action::Forward(c) => ActionModel::Forward(c@),
            Action::Quit => ActionModel::Quit,
        }
    }
}

/// What the driver does with the outcome of parsing a line: `quit` ends the session,
/// `help` shows the usage text, every other command goes to the engine.
pub open spec fn dispatch(c: Option<CommandModel>) -> ActionModel {
    match c {
        None => ActionModel::Unrecognized,
        Some(CommandModel::Quit) => ActionModel::Quit,
        Some(CommandModel::Help) => ActionModel::ShowHelp,
        Some(c) => ActionModel::Forward(c),
    }
}

/// The action that answers one input, where `is_file` tells whether the
/// argument of a `load` line names an existing regular file.
pub open spec fn response(input: Input, is_file: bool) -> ActionModel {
    match input {
        Input::Line(l) => if is_blank(l@) {
            ActionModel::Idle
        } else {
            dispatch(grammar(tokens_of(l@), is_file))
        },
        Input::Interrupted => ActionModel::Hint,
        Input::EndOfInput => ActionModel::Quit,
        Input::Failed => ActionModel::ReportError,
    }
}

/// Whether the answer to the input depends on the file system.
pub open spec fn input_needs_file_check(input: Input) -> bool {
    match input {
        Input::Line(l) => !is_blank(l@) && needs_file_check(tokens_of(l@)),
        _ => false,
    }
}

/// The line that an input adds to the history: every non-blank line.
pub open spec fn entered_line(input: Input) -> Option<Seq<char>> {
    match input {
        Input::Line(l) => if is_blank(l@) {
            None
        } else {
            Some(l@)
        },
        _ => None,
    }
}

/// The history after one input.
pub open spec fn next_history(h: Seq<Seq<char>>, input: Input) -> Seq<Seq<char>> {
    match entered_line(input) {
        Some(l) => h.push(l),
        None => h,
    }
}

/// The history after a run of inputs, one step after another.
pub open spec fn history_after(h: Seq<Seq<char>>, inputs: Seq<Input>) -> Seq<Seq<char>>
    decreases inputs.len(),
{
    if inputs.len() == 0 {
        h
    } else {
        next_history(history_after(h, inputs.drop_last()), inputs.last())
    }
}

/// The read-validate-dispatch loop: the lines entered so far, and whether
/// the session has ended.
pub struct Session {
    history: Vec<String>,
    ended: bool,
}

impl Session {
    /// The lines entered in this session, oldest first.
    pub closed spec fn history(&self) -> Seq<Seq<char>> {
        self.history@.map_values(|l: String| l@)
    }

    /// Whether the session has ended.
    pub closed spec fn ended(&self) -> bool {
        self.ended
    }

    /// A session that has just started.
    pub fn new() -> (s: Session)
        ensures
            s.history() == Seq::<Seq<char>>::empty(),
            !s.ended(),
    {
        let s = Session { history: Vec::new(), ended: false };
        assert(s.history() =~= Seq::<Seq<char>>::empty());
        s
    }

    /// The lines entered in this session, oldest first.
    pub fn history_lines(&self) -> (r: &Vec<String>)
        ensures
            r@.map_values(|l: String| l@) == self.history(),
    {
        &self.history
    }

    /// Whether the session has ended.
    pub fn has_ended(&self) -> (r: bool)
        ensures
            r == self.ended(),
    {
        self.ended
    }

    /// Takes one input from the line source and says what to do with it.
    /// A non-blank line is added to the history whether or not it is a
    /// command; `quit` and the end of input end the session. Once the session
    /// has ended, inputs change nothing.
    pub fn step(&mut self, input: Input) -> (r: Action)
        ensures
            old(self).ended() ==> r@ == ActionModel::Idle && final(self).history() == old(
                self,
            ).history() && final(self).ended(),
            !old(self).ended() ==> final(self).history() == next_history(
                old(self).history(),
                input,
            ),
            !old(self).ended() ==> exists|is_file: bool| r@ == #[trigger] response(input, is_file),
            !old(self).ended() && !input_needs_file_check(input) ==> r@ == response(input, false),
            !old(self).ended() ==> (final(self).ended() <==> r@ == ActionModel::Quit),
    {
        if self.ended {
            return Action::Idle;
        }
        let ghost old_history = self.history();
        let ghost the_input = input;
        match input {
            Input::Line(line) => {
                let tokens = split_tokens(line.as_str());
                proof {
                    lemma_no_tokens_iff_blank(line@);
                }
                if tokens.len() == 0 {
                    return Action::Idle;
                }
                let ghost before = self.history@;
                self.history.push(line.clone());
                assert(self.history() =~= old_history.push(line@)) by {
                    assert(self.history@ == before.push(self.history@.last()));
                }
                let cmd = Command::from_tokens(&tokens);
                let ghost toks = token_texts(tokens@);
                let ghost is_file = choose|b: bool| #[trigger] grammar(toks, b) == crate::cmd::command_view(cmd);
                assert(response(the_input, is_file) == dispatch(crate::cmd::command_view(cmd)));
                match cmd {
                    None => Action::Unrecognized,
                    Some(Command::Quit) => {
                        self.ended = true;
                        Action::Quit
                    },
                    Some(Command::Help) => Action::ShowHelp,
                    Some(c) => Action::Forward(c),
                }
            },
            Input::Interrupted => Action::Hint,
            Input::EndOfInput => {
                self.ended = true;
                Action::Quit
            },
            Input::Failed => Action::ReportError,
        }
    }
}

/// A blank line asks nothing of the grammar, leads to no action and leaves
/// the history as it was.
pub proof fn lemma_blank_line_ignored(h: Seq<Seq<char>>, line: String, is_file: bool)
    requires
        is_blank(line@),
    ensures
        response(Input::Line(line), is_file) == ActionModel::Idle,
        next_history(h, Input::Line(line)) == h,
{
}

/// After any run of inputs the history holds, after what it held before,
/// every non-blank line of the run, accepted or not, in the order entered.
pub proof fn lemma_history_holds_entered_lines(h: Seq<Seq<char>>, inputs: Seq<Input>)
    ensures
        history_after(h, inputs) == h + inputs.filter_map(|i: Input| entered_line(i)),
    decreases inputs.len(),
{
    if inputs.len() == 0 {
        assert(h + inputs.filter_map(|i: Input| entered_line(i)) =~= h);
    } else {
        lemma_history_holds_entered_lines(h, inputs.drop_last());
        let f = |i: Input| entered_line(i);
        match entered_line(inputs.last()) {
            Some(l) => {
                assert(h + inputs.filter_map(f) =~= (h + inputs.drop_last().filter_map(f)).push(
                    l,
                ));
            },
            None => {},
        }
    }
}

/// The end of input is answered as a typed `quit` is: the session ends, and
/// no command goes to the engine.
pub proof fn lemma_end_of_input_acts_as_quit(line: String, is_file: bool)
    requires
        line@ == "quit"@,
    ensures
        response(Input::EndOfInput, is_file) == ActionModel::Quit,
        response(Input::Line(line), is_file) == ActionModel::Quit,
{
    reveal_strlit("quit");
    reveal_strlit("q");
    reveal_strlit("put");
    reveal_strlit("p");
    reveal_strlit("get");
    reveal_strlit("g");
    reveal_strlit("range");
    reveal_strlit("r");
    reveal_strlit("delete");
    reveal_strlit("d");
    reveal_strlit("load");
    reveal_strlit("l");
    reveal_strlit("print");
    reveal_strlit("s");
    let s = line@;
    assert(!crate::cmd::is_space(s[0]) && !crate::cmd::is_space(s[1]) && !crate::cmd::is_space(s[2])
        && !crate::cmd::is_space(s[3]));
    assert(!is_blank(s));
    let s1 = s.subrange(0, 1);
    let s2 = s.subrange(0, 2);
    let s3 = s.subrange(0, 3);
    assert(s1.drop_last() =~= Seq::<char>::empty());
    assert(tokens_of(s1.drop_last()) == Seq::<Seq<char>>::empty());
    assert(s1.last() == s[0]);
    assert(seq![s1.last()] =~= s1);
    assert(tokens_of(s1) =~= seq![s1]);
    assert(s2.drop_last() =~= s1);
    assert(tokens_of(s2) =~= seq![s2]) by {
        assert(s1.push(s2.last()) =~= s2);
    }
    assert(s3.drop_last() =~= s2);
    assert(tokens_of(s3) =~= seq![s3]) by {
        assert(s2.push(s3.last()) =~= s3);
    }
    assert(s.drop_last() =~= s3);
    assert(tokens_of(s) =~= seq![s]) by {
        assert(s3.push(s.last()) =~= s);
    }
    assert(s != "put"@ && s != "get"@ && s != "range"@ && s != "delete"@ && s != "load"@);
    assert(s != "print"@);
}

/// An interrupt ends nothing, sends nothing and leaves the history as it was.
pub proof fn lemma_interrupt_changes_nothing(h: Seq<Seq<char>>, is_file: bool)
    ensures
        response(Input::Interrupted, is_file) == ActionModel::Hint,
        next_history(h, Input::Interrupted) == h,
{
}

} // verus!
