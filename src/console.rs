use vstd::prelude::*;

verus! {

/// What the terminal is asked to do, as the verified code sees it.
pub enum ConsoleCall {
    /// Render one record with a line ordinal and the filter key list.
    WriteLog(Seq<char>, nat, Seq<Seq<char>>),
    /// Write text at the cursor, unstyled.
    Write(Seq<char>),
    /// Clear the bottom terminal line and move the cursor to its start.
    CleanLastline,
    /// Emit a line terminator.
    Enter,
}

/// One request addressed to the terminal renderer.
#[derive(Debug, PartialEq, Eq)]
pub enum ConsoleCommand {
    WriteLog { line: String, ordinal: usize, filter_keys: Vec<String> },
    Write { text: String },
    CleanLastline,
    Enter,
}

impl View for ConsoleCommand {
    type V = ConsoleCall;

    open spec fn view(&self) -> ConsoleCall {
        match self {
            ConsoleCommand::WriteLog { line, ordinal, filter_keys } => ConsoleCall::WriteLog(
                line@,
                *ordinal as nat,
                filter_keys.deep_view(),
            ),
            ConsoleCommand::Write { text } => ConsoleCall::Write(text@),
            ConsoleCommand::CleanLastline => ConsoleCall::CleanLastline,
            ConsoleCommand::Enter => ConsoleCall::Enter,
        }
    }
}

/// The queue of requests that the stream state addresses to the terminal, in
/// the order in which they were made. A driver takes them out and performs them.
pub struct Console {
    commands: Vec<ConsoleCommand>,
}

impl View for Console {
    type V = Seq<ConsoleCall>;

    closed spec fn view(&self) -> Seq<ConsoleCall> {
        self.commands@.map_values(|c: ConsoleCommand| c@)
    }
}

/// A copy of a list of strings, element by element.
pub fn clone_strings(v: &Vec<String>) -> (r: Vec<String>)
    ensures
        r.deep_view() == v.deep_view(),
{
    let mut r: Vec<String> = Vec::new();
    let mut i: usize = 0;
    while i < v.len()
        invariant
            i <= v.len(),
            r.deep_view() == v.deep_view().subrange(0, i as int),
        decreases v.len() - i,
    {
        let s = v[i].clone();
        let ghost prev = r.deep_view();
        r.push(s);
        assert(r.deep_view() =~= prev.push(v.deep_view()[i as int]));
        i = i + 1;
        assert(r.deep_view() =~= v.deep_view().subrange(0, i as int));
    }
    assert(v.deep_view().subrange(0, v.len() as int) =~= v.deep_view());
    r
}

impl Console {
    /// A console with no pending requests.
    pub fn new() -> (r: Console)
        ensures
            r@ == Seq::<ConsoleCall>::empty(),
    {
        let r = Console { commands: Vec::new() };
        assert(r@ =~= Seq::<ConsoleCall>::empty());
        r
    }

    /// The pending requests, oldest first.
    pub fn commands(&self) -> (r: &Vec<ConsoleCommand>)
        ensures
            r@.map_values(|c: ConsoleCommand| c@) == self@,
    {
        &self.commands
    }

    /// Hands out the pending requests, oldest first, and leaves none behind.
    pub fn take_commands(&mut self) -> (r: Vec<ConsoleCommand>)
        ensures
            r@.map_values(|c: ConsoleCommand| c@) == old(self)@,
            final(self)@ == Seq::<ConsoleCall>::empty(),
    {
        let mut r: Vec<ConsoleCommand> = Vec::new();
        r.append(&mut self.commands);
        assert(r@ =~= old(self).commands@);
        assert(self@ =~= Seq::<ConsoleCall>::empty());
        r
    }

    /// Asks for one record to be rendered with `ordinal` and the filter keys.
    pub fn write_log(&mut self, line: &String, ordinal: usize, filter_keys: &Vec<String>)
        ensures
            final(self)@ == old(self)@.push(
                ConsoleCall::WriteLog(line@, ordinal as nat, filter_keys.deep_view()),
            ),
    {
        let cmd = ConsoleCommand::WriteLog {
            line: line.clone(),
            ordinal,
            filter_keys: clone_strings(filter_keys),
        };
        self.commands.push(cmd);
        assert(self@ =~= old(self)@.push(
            ConsoleCall::WriteLog(line@, ordinal as nat, filter_keys.deep_view()),
        ));
    }

    /// Asks for `text` to be written at the cursor.
    pub fn write(&mut self, text: String)
        ensures
            final(self)@ == old(self)@.push(ConsoleCall::Write(text@)),
    {
        let ghost t = text@;
        self.commands.push(ConsoleCommand::Write { text });
        assert(self@ =~= old(self)@.push(ConsoleCall::Write(t)));
    }

    /// Asks for the bottom line to be cleared.
    pub fn clean_lastline(&mut self)
        ensures
            final(self)@ == old(self)@.push(ConsoleCall::CleanLastline),
    {
        self.commands.push(ConsoleCommand::CleanLastline);
        assert(self@ =~= old(self)@.push(ConsoleCall::CleanLastline));
    }

    /// Asks for a line terminator.
    pub fn enter(&mut self)
        ensures
            final(self)@ == old(self)@.push(ConsoleCall::Enter),
    {
        self.commands.push(ConsoleCommand::Enter);
        assert(self@ =~= old(self)@.push(ConsoleCall::Enter));
    }
}

} // verus!
