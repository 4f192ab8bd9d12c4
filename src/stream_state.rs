use vstd::prelude::*;
use std::collections::VecDeque;
use crate::console::{clone_strings, Console, ConsoleCall};
use crate::json::{entries_view, json_object_entries, object_entries};
use crate::key_set::insert_key;
use crate::text::{decimal, decimal_text, hex_digit, hex_digit_value, strictly_ascending};

verus! {

/// Capacity of the log buffer of a state made by [`StreamState::new`].
pub const DEFAULT_LOG_BUFFER_LIMIT: usize = 1024;

/// How keystrokes and incoming records are handled.
#[derive(Clone, Copy, Debug, PartialEq, Eq, Structural)]
pub enum Mode {
    /// Each incoming record is rendered as it arrives.
    TailLog,
    /// Incoming records are only buffered; the key list is on screen.
    KeySelector,
}

/// The abstract value of a [`StreamState`].
pub struct StreamModel {
    /// Number of records accepted so far.
    pub line_count: nat,
    /// Capacity of the log buffer.
    pub limit: nat,
    /// The most recent records, oldest first.
    pub buffer: Seq<Seq<char>>,
    /// The persistent key universe, ascending.
    pub keys: Seq<Seq<char>>,
    /// Keys handed to the renderer with each record.
    pub filter_keys: Seq<Seq<char>>,
    pub mode: Mode,
    /// Every record accepted so far, oldest first.
    pub history: Seq<Seq<char>>,
}

/// The last `min(history.len(), limit)` records of `history`, oldest first.
pub open spec fn last_records(history: Seq<Seq<char>>, limit: nat) -> Seq<Seq<char>> {
    history.subrange(
        if history.len() > limit { history.len() - limit } else { 0 },
        history.len() as int,
    )
}

/// `buffer` with `r` appended at the tail and, where that makes it longer than
/// `limit`, its head record evicted.
pub open spec fn push_bounded(buffer: Seq<Seq<char>>, r: Seq<char>, limit: nat) -> Seq<Seq<char>> {
    if buffer.len() + 1 > limit {
        buffer.push(r).drop_first()
    } else {
        buffer.push(r)
    }
}

/// The mode after keystroke `c` in mode `m`: `'z'` toggles, anything else keeps.
pub open spec fn next_mode(m: Mode, c: char) -> Mode {
    if c == 'z' {
        match m {
            Mode::TailLog => Mode::KeySelector,
            Mode::KeySelector => Mode::TailLog,
        }
    } else {
        m
    }
}

/// The top-level keys of a record that is a JSON object; none for any other record.
pub open spec fn record_keys(r: Seq<char>) -> Set<Seq<char>> {
    match json_object_entries(r) {
        Some(es) => es.map_values(|e: (Seq<char>, Seq<char>)| e.0).to_set(),
        None => Set::empty(),
    }
}

/// Every key that appears at the top level of some record of `buffer`.
pub open spec fn buffer_keys(buffer: Seq<Seq<char>>) -> Set<Seq<char>> {
    Set::new(
        |k: Seq<char>| exists|i: int| 0 <= i < buffer.len() && #[trigger] record_keys(buffer[i]).contains(k),
    )
}

/// `ks` lists the keys of `buffer`, each once, in ascending order.
pub open spec fn lists_keys_of(ks: Seq<Seq<char>>, buffer: Seq<Seq<char>>) -> bool {
    strictly_ascending(ks) && ks.to_set() == buffer_keys(buffer)
}

/// The text written for the key at position `i` of the key list.
pub open spec fn key_entry_text(i: nat, k: Seq<char>) -> Seq<char> {
    decimal(i) + ":"@ + k + "\t"@
}

/// The requests that display the key list `ks`.
pub open spec fn key_listing(ks: Seq<Seq<char>>) -> Seq<ConsoleCall> {
    seq![ConsoleCall::CleanLastline] + Seq::new(
        ks.len(),
        |i: int| ConsoleCall::Write(key_entry_text(i as nat, ks[i])),
    ) + seq![ConsoleCall::Enter]
}

impl StreamModel {
    /// A fresh state with a buffer of capacity `limit`.
    pub open spec fn initial(limit: nat) -> StreamModel {
        StreamModel {
            line_count: 0,
            limit,
            buffer: Seq::empty(),
            keys: Seq::empty(),
            filter_keys: Seq::empty(),
            mode: Mode::TailLog,
            history: Seq::empty(),
        }
    }

    pub open spec fn wf(self) -> bool {
        &&& self.limit > 0
        &&& self.line_count == self.history.len()
        &&& self.buffer == last_records(self.history, self.limit)
        &&& strictly_ascending(self.keys)
    }

    /// The state after one record `r` is accepted.
    pub open spec fn after_line(self, r: Seq<char>) -> StreamModel {
        StreamModel {
            line_count: self.line_count + 1,
            buffer: push_bounded(self.buffer, r, self.limit),
            history: self.history.push(r),
            ..self
        }
    }

    /// The state after the records `rs` are accepted, in order.
    pub open spec fn after_lines(self, rs: Seq<Seq<char>>) -> StreamModel
        decreases rs.len(),
    {
        if rs.len() == 0 {
            self
        } else {
            self.after_lines(rs.drop_last()).after_line(rs.last())
        }
    }

    /// The state after keystroke `c`.
    pub open spec fn after_key(self, c: char) -> StreamModel {
        StreamModel { mode: next_mode(self.mode, c), ..self }
    }

    /// The requests that repaint the buffer: each record with its position.
    pub open spec fn rewrite_calls(self) -> Seq<ConsoleCall> {
        Seq::new(
            self.buffer.len(),
            |i: int| ConsoleCall::WriteLog(self.buffer[i], i as nat, self.filter_keys),
        )
    }

    /// The requests that accepting record `r` makes.
    pub open spec fn line_calls(self, r: Seq<char>) -> Seq<ConsoleCall> {
        if self.mode == Mode::TailLog {
            seq![ConsoleCall::WriteLog(r, self.line_count + 1, self.filter_keys)]
        } else {
            Seq::empty()
        }
    }
}

/// The state of a log stream: the bounded history of raw records, the line
/// ordinal, and the mode in which keystrokes are read.
pub struct StreamState {
    line_count: usize,
    log_buffer_limit: usize,
    log_buffer: VecDeque<String>,
    keys: Vec<String>,
    filter_keys: Vec<String>,
    mode: Mode,
    /// Every record accepted so far; the buffer is its tail.
    history: Ghost<Seq<Seq<char>>>,
}

impl View for StreamState {
    type V = StreamModel;

    closed spec fn view(&self) -> StreamModel {
        StreamModel {
            line_count: self.line_count as nat,
            limit: self.log_buffer_limit as nat,
            buffer: self.log_buffer@.map_values(|s: String| s@),
            keys: self.keys.deep_view(),
            filter_keys: self.filter_keys.deep_view(),
            mode: self.mode,
            history: self.history@,
        }
    }
}

impl StreamState {
    pub open spec fn wf(&self) -> bool {
        self@.wf()
    }

    /// A fresh state whose buffer holds up to 1024 records.
    pub fn new() -> (r: StreamState)
        ensures
            r.wf(),
            r@ == StreamModel::initial(DEFAULT_LOG_BUFFER_LIMIT as nat),
    {
        StreamState::with_buffer_limit(DEFAULT_LOG_BUFFER_LIMIT)
    }

    /// A fresh state whose buffer holds up to `limit` records.
    pub fn with_buffer_limit(limit: usize) -> (r: StreamState)
        requires
            limit > 0,
        ensures
            r.wf(),
            r@ == StreamModel::initial(limit as nat),
    {
        let r = StreamState {
            line_count: 0,
            log_buffer_limit: limit,
            log_buffer: VecDeque::new(),
            keys: Vec::new(),
            filter_keys: Vec::new(),
            mode: Mode::TailLog,
            history: Ghost(Seq::empty()),
        };
        assert(r@.buffer =~= Seq::<Seq<char>>::empty());
        assert(r@.keys =~= Seq::<Seq<char>>::empty());
        assert(r@.filter_keys =~= Seq::<Seq<char>>::empty());
        assert(last_records(Seq::<Seq<char>>::empty(), limit as nat) =~= Seq::<Seq<char>>::empty());
        r
    }

    /// Accepts one record: the ordinal goes up by one, the record joins the
    /// buffer's tail (evicting its head record when the buffer is full), and in
    /// tail mode the record is sent to be rendered with the new ordinal.
    pub fn add_line(&mut self, line: &String, console: &mut Console)
        requires
            old(self).wf(),
            old(self)@.line_count < usize::MAX,
        ensures
            final(self).wf(),
            final(self)@ == old(self)@.after_line(line@),
            final(console)@ == old(console)@ + old(self)@.line_calls(line@),
    {
        let ghost before = self@;
        self.line_count = self.line_count + 1;
        self.history = Ghost(self.history@.push(line@));
        proof {
            lemma_last_records_push(before.history, line@, before.limit);
        }
        self.log_buffer.push_back(line.clone());
        if self.log_buffer.len() > self.log_buffer_limit {
            let _evicted = self.log_buffer.pop_front();
        }
        assert(self@.buffer =~= push_bounded(before.buffer, line@, before.limit));
        if self.mode == Mode::TailLog {
            console.write_log(line, self.line_count, &self.filter_keys);
            assert(final(console)@ =~= old(console)@ + before.line_calls(line@));
        } else {
            assert(console@ =~= old(console)@ + before.line_calls(line@));
        }
    }

    /// Repaints the buffer: each record, oldest first, is sent to be rendered
    /// with its position in the buffer as ordinal.
    pub fn rewrite_logs(&self, console: &mut Console)
        ensures
            final(console)@ == old(console)@ + self@.rewrite_calls(),
    {
        let mut i: usize = 0;
        while i < self.log_buffer.len()
            invariant
                i <= self.log_buffer@.len(),
                console@ == old(console)@ + self@.rewrite_calls().subrange(0, i as int),
            decreases self.log_buffer@.len() - i,
        {
            console.write_log(&self.log_buffer[i], i, &self.filter_keys);
            i = i + 1;
            assert(self@.rewrite_calls().subrange(0, i as int) =~= self@.rewrite_calls().subrange(
                0,
                i - 1,
            ).push(self@.rewrite_calls()[i - 1]));
        }
        assert(self@.rewrite_calls().subrange(0, i as int) =~= self@.rewrite_calls());
    }

    /// The keys at the top level of the buffered records that are JSON objects,
    /// each once, in ascending order.
    pub fn collect_keys(&self) -> (r: Vec<String>)
        ensures
            lists_keys_of(r.deep_view(), self@.buffer),
    {
        let ghost buf = self@.buffer;
        let mut key_list: Vec<String> = Vec::new();
        let mut i: usize = 0;
        assert(buffer_keys(buf.subrange(0, 0)) =~= Set::<Seq<char>>::empty());
        assert(key_list.deep_view().to_set() =~= Set::<Seq<char>>::empty());
        while i < self.log_buffer.len()
            invariant
                buf == self@.buffer,
                i <= buf.len(),
                strictly_ascending(key_list.deep_view()),
                key_list.deep_view().to_set() == buffer_keys(buf.subrange(0, i as int)),
            decreases buf.len() - i,
        {
            let ghost done = key_list.deep_view().to_set();
            match object_entries(self.log_buffer[i].as_str()) {
                Some(entries) => {
                    let ghost es = entries_view(entries@);
                    let mut j: usize = 0;
                    assert(es.subrange(0, 0).map_values(|e: (Seq<char>, Seq<char>)| e.0).to_set()
                        =~= Set::<Seq<char>>::empty());
                    while j < entries.len()
                        invariant
                            j <= entries.len(),
                            es == entries_view(entries@),
                            strictly_ascending(key_list.deep_view()),
                            key_list.deep_view().to_set() == done.union(
                                es.subrange(0, j as int).map_values(
                                    |e: (Seq<char>, Seq<char>)| e.0,
                                ).to_set(),
                            ),
                        decreases entries.len() - j,
                    {
                        let ghost ks = es.subrange(0, j as int).map_values(
                            |e: (Seq<char>, Seq<char>)| e.0,
                        );
                        insert_key(&mut key_list, entries[j].0.clone());
                        proof {
                            let ks2 = es.subrange(0, j + 1).map_values(
                                |e: (Seq<char>, Seq<char>)| e.0,
                            );
                            assert(ks2 =~= ks.push(es[j as int].0));
                            ks.lemma_push_to_set_commute(es[j as int].0);
                            assert(ks2.to_set() =~= ks.to_set().insert(es[j as int].0));
                        }
                        j = j + 1;
                        assert(key_list.deep_view().to_set() =~= done.union(
                            es.subrange(0, j as int).map_values(
                                |e: (Seq<char>, Seq<char>)| e.0,
                            ).to_set(),
                        ));
                    }
                    assert(es.subrange(0, j as int) =~= es);
                    assert(record_keys(buf[i as int]) == es.map_values(
                        |e: (Seq<char>, Seq<char>)| e.0,
                    ).to_set());
                },
                None => {
                    assert(record_keys(buf[i as int]) =~= Set::<Seq<char>>::empty());
                },
            }
            proof {
                lemma_buffer_keys_step(buf, i as int);
            }
            i = i + 1;
        }
        assert(buf.subrange(0, i as int) =~= buf);
        key_list
    }

    /// Shows the key list: clears the bottom line, writes `<i>:<key>\t` for each
    /// key of the buffer at position `i` of the ascending list, and ends the line.
    pub fn draw_keys(&self, console: &mut Console)
        ensures
            exists|ks: Seq<Seq<char>>|
                lists_keys_of(ks, self@.buffer) && final(console)@ == old(console)@ + key_listing(
                    ks,
                ),
    {
        let key_list = self.collect_keys();
        let ghost ks = key_list.deep_view();
        console.clean_lastline();
        let mut n: usize = 0;
        while n < key_list.len()
            invariant
                n <= key_list.len(),
                ks == key_list.deep_view(),
                console@ == old(console)@ + seq![ConsoleCall::CleanLastline] + Seq::new(
                    n as nat,
                    |i: int| ConsoleCall::Write(key_entry_text(i as nat, ks[i])),
                ),
            decreases key_list.len() - n,
        {
            let mut text = decimal_text(n);
            text.append(":");
            text.append(key_list[n].as_str());
            text.append("\t");
            assert(text@ =~= key_entry_text(n as nat, ks[n as int]));
            console.write(text);
            n = n + 1;
            assert(Seq::new(
                n as nat,
                |i: int| ConsoleCall::Write(key_entry_text(i as nat, ks[i])),
            ) =~= Seq::new(
                (n - 1) as nat,
                |i: int| ConsoleCall::Write(key_entry_text(i as nat, ks[i])),
            ).push(ConsoleCall::Write(key_entry_text((n - 1) as nat, ks[n - 1]))));
        }
        console.enter();
        assert(console@ =~= old(console)@ + key_listing(ks));
    }

    /// Reads one keystroke. In tail mode `'r'` repaints the buffer and `'z'`
    /// switches to key selection and shows the key list. In key selection a
    /// hexadecimal digit is read and has no further effect, and `'z'` switches
    /// back to tail mode without repainting. Any other character does nothing.
    pub fn send_key(&mut self, console: &mut Console, c: char)
        requires
            old(self).wf(),
        ensures
            final(self).wf(),
            final(self)@ == old(self)@.after_key(c),
            old(self)@.mode == Mode::TailLog && c == 'r' ==> final(console)@ == old(console)@
                + old(self)@.rewrite_calls(),
            old(self)@.mode == Mode::TailLog && c == 'z' ==> exists|ks: Seq<Seq<char>>|
                lists_keys_of(ks, old(self)@.buffer) && final(console)@ == old(console)@
                    + key_listing(ks),
            !(old(self)@.mode == Mode::TailLog && (c == 'r' || c == 'z')) ==> final(console)@
                == old(console)@,
    {
        match self.mode {
            Mode::TailLog => {
                if c == 'r' {
                    self.rewrite_logs(console);
                } else if c == 'z' {
                    self.to_key_selector_mode();
                    self.draw_keys(console);
                }
            },
            Mode::KeySelector => {
                if ('0' <= c && c <= '9') || ('a' <= c && c <= 'f') {
                    let _key_position = hex_digit_value(c);
                    assert(hex_digit(c) is Some);
                } else if c == 'z' {
                    self.to_tail_log_mode();
                }
            },
        }
    }

    /// Number of records accepted so far.
    pub fn line_count(&self) -> (r: usize)
        ensures
            r as nat == self@.line_count,
    {
        self.line_count
    }

    /// Capacity of the log buffer.
    pub fn buffer_limit(&self) -> (r: usize)
        ensures
            r as nat == self@.limit,
    {
        self.log_buffer_limit
    }

    /// The current mode.
    pub fn mode(&self) -> (r: Mode)
        ensures
            r == self@.mode,
    {
        self.mode
    }

    /// The buffered records, oldest first.
    pub fn log_buffer(&self) -> (r: &VecDeque<String>)
        ensures
            r@.map_values(|s: String| s@) == self@.buffer,
    {
        &self.log_buffer
    }

    /// The persistent key universe, ascending.
    pub fn keys(&self) -> (r: &Vec<String>)
        ensures
            r.deep_view() == self@.keys,
    {
        &self.keys
    }

    /// The keys handed to the renderer with each record.
    pub fn filter_keys(&self) -> (r: &Vec<String>)
        ensures
            r.deep_view() == self@.filter_keys,
    {
        &self.filter_keys
    }

    /// Switches to tail mode; nothing else changes.
    pub fn to_tail_log_mode(&mut self)
        requires
            old(self).wf(),
        ensures
            final(self).wf(),
            final(self)@ == (StreamModel { mode: Mode::TailLog, ..old(self)@ }),
    {
        self.mode = Mode::TailLog;
    }

    /// Switches to key selection; nothing else changes.
    pub fn to_key_selector_mode(&mut self)
        requires
            old(self).wf(),
        ensures
            final(self).wf(),
            final(self)@ == (StreamModel { mode: Mode::KeySelector, ..old(self)@ }),
    {
        self.mode = Mode::KeySelector;
    }
}

/// Accepting a record moves the window of the last records by that record.
pub proof fn lemma_last_records_push(history: Seq<Seq<char>>, r: Seq<char>, limit: nat)
    requires
        limit > 0,
    ensures
        last_records(history.push(r), limit) == push_bounded(last_records(history, limit), r, limit),
{
    let b = last_records(history, limit);
    let h = history.push(r);
    let start = if h.len() > limit { h.len() - limit } else { 0int };
    if b.len() + 1 > limit {
        assert(b.push(r).drop_first() =~= h.subrange(start, h.len() as int));
    } else {
        assert(b.push(r) =~= h.subrange(start, h.len() as int));
    }
}

proof fn lemma_buffer_keys_step(buf: Seq<Seq<char>>, i: int)
    requires
        0 <= i < buf.len(),
    ensures
        buffer_keys(buf.subrange(0, i + 1)) == buffer_keys(buf.subrange(0, i)).union(
            record_keys(buf[i]),
        ),
{
    let a = buf.subrange(0, i);
    let b = buf.subrange(0, i + 1);
    assert forall|k: Seq<char>| buffer_keys(b).contains(k) <==> buffer_keys(a).union(
        record_keys(buf[i]),
    ).contains(k) by {
        if buffer_keys(b).contains(k) {
            let j = choose|j: int| 0 <= j < b.len() && #[trigger] record_keys(b[j]).contains(k);
            if j < i {
                assert(record_keys(a[j]).contains(k));
            }
        }
        if buffer_keys(a).contains(k) {
            let j = choose|j: int| 0 <= j < a.len() && #[trigger] record_keys(a[j]).contains(k);
            assert(record_keys(b[j]).contains(k));
        }
        if record_keys(buf[i]).contains(k) {
            assert(record_keys(b[i]).contains(k));
        }
    }
    assert(buffer_keys(b) =~= buffer_keys(a).union(record_keys(buf[i])));
}

} // verus!
