use vstd::prelude::*;
use vstd::string::StringExecFns;

verus! {

/// How many log lines the dashboard keeps.
pub const MAX_LINES: usize = 75;

/// A statistic shown on the dashboard.
pub enum Stat {
    HeaderCount(u64),
    NewConnection,
    ConnectionClosed,
    V4RoutingTableSize(usize),
    V6RoutingTableSize(usize),
}

/// The abstract state of the dashboard.
pub struct PrinterState {
    pub lines: Seq<Seq<char>>,
    pub header_count: u64,
    pub connection_count: u64,
    pub v4_table_size: usize,
    pub v6_table_size: usize,
}

/// The ANSI sequence that starts red text.
pub open spec fn red_start() -> Seq<char> {
    seq!['\x1b', '[', '3', '1', 'm']
}

/// The ANSI sequence that resets the colour.
pub open spec fn color_reset() -> Seq<char> {
    seq!['\x1b', '[', '0', 'm']
}

/// The text a log line is kept as: errors are wrapped in red.
pub open spec fn log_text(line: Seq<char>, err: bool) -> Seq<char> {
    if err {
        red_start() + line + color_reset()
    } else {
        line
    }
}

/// `lines` with `text` appended, dropping the oldest line beyond `MAX_LINES`.
pub open spec fn appended(lines: Seq<Seq<char>>, text: Seq<char>) -> Seq<Seq<char>> {
    let pushed = lines.push(text);
    if pushed.len() > MAX_LINES {
        pushed.drop_first()
    } else {
        pushed
    }
}

/// The state of the terminal dashboard: the recent log lines and the
/// statistics it shows.
pub struct Printer {
    lines: Vec<String>,
    header_count: u64,
    connection_count: u64,
    v4_table_size: usize,
    v6_table_size: usize,
}

impl View for Printer {
    type V = PrinterState;

    closed spec fn view(&self) -> PrinterState {
        PrinterState {
            lines: self.lines@.map_values(|s: String| s@),
            header_count: self.header_count,
            connection_count: self.connection_count,
            v4_table_size: self.v4_table_size,
            v6_table_size: self.v6_table_size,
        }
    }
}

impl Printer {
    pub open spec fn wf(&self) -> bool {
        self@.lines.len() <= MAX_LINES
    }

    /// An empty dashboard.
    pub fn new() -> (r: Self)
        ensures
            r.wf(),
            r@.lines.len() == 0,
            r@.header_count == 0,
            r@.connection_count == 0,
            r@.v4_table_size == 0,
            r@.v6_table_size == 0,
    {
        let r = Printer {
            lines: Vec::new(),
            header_count: 0,
            connection_count: 0,
            v4_table_size: 0,
            v6_table_size: 0,
        };
        assert(r@.lines =~= Seq::<Seq<char>>::empty());
        r
    }

    /// Appends a log line, in red when `err`, keeping the last `MAX_LINES`.
    pub fn add_line(&mut self, line: String, err: bool)
        requires
            old(self).wf(),
        ensures
            final(self).wf(),
            final(self)@ == (PrinterState { lines: appended(old(self)@.lines, log_text(line@, err)), ..old(self)@ }),
    {
        let ghost pre = self@;
        let text = if err {
            let mut t = String::from_str("\x1b[31m");
            t.append(line.as_str());
            t.append("\x1b[0m");
            proof {
                reveal_strlit("\x1b[31m");
                reveal_strlit("\x1b[0m");
                assert(t@ =~= log_text(line@, err));
            }
            t
        } else {
            line
        };
        self.lines.push(text);
        if self.lines.len() > MAX_LINES {
            self.lines.remove(0);
        }
        assert(self@.lines =~= appended(pre.lines, log_text(line@, err)));
    }

    /// Records a statistic: a count is set, a connection opened or closed.
    pub fn set_stat(&mut self, s: Stat)
        requires
            s is NewConnection ==> old(self)@.connection_count < u64::MAX,
            s is ConnectionClosed ==> old(self)@.connection_count > 0,
        ensures
            final(self)@.lines == old(self)@.lines,
            final(self)@ == match s {
                Stat::HeaderCount(c) => PrinterState { header_count: c, ..old(self)@ },
                Stat::NewConnection => PrinterState {
                    connection_count: (old(self)@.connection_count + 1) as u64,
                    ..old(self)@
                },
                Stat::ConnectionClosed => PrinterState {
                    connection_count: (old(self)@.connection_count - 1) as u64,
                    ..old(self)@
                },
                Stat::V4RoutingTableSize(c) => PrinterState { v4_table_size: c, ..old(self)@ },
                Stat::V6RoutingTableSize(c) => PrinterState { v6_table_size: c, ..old(self)@ },
            },
    {
        match s {
            Stat::HeaderCount(c) => self.header_count = c,
            Stat::NewConnection => self.connection_count = self.connection_count + 1,
            Stat::ConnectionClosed => self.connection_count = self.connection_count - 1,
            Stat::V4RoutingTableSize(c) => self.v4_table_size = c,
            Stat::V6RoutingTableSize(c) => self.v6_table_size = c,
        }
    }

    /// The kept log lines, oldest first.
    pub fn lines(&self) -> (r: &Vec<String>)
        ensures
            r@.map_values(|s: String| s@) == self@.lines,
    {
        &self.lines
    }

    pub fn header_count(&self) -> (r: u64)
        ensures
            r == self@.header_count,
    {
        self.header_count
    }

    pub fn connection_count(&self) -> (r: u64)
        ensures
            r == self@.connection_count,
    {
        self.connection_count
    }

    pub fn v4_table_size(&self) -> (r: usize)
        ensures
            r == self@.v4_table_size,
    {
        self.v4_table_size
    }

    pub fn v6_table_size(&self) -> (r: usize)
        ensures
            r == self@.v6_table_size,
    {
        self.v6_table_size
    }
}

} // verus!
