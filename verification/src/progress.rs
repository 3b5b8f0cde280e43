//! What is said while a device is being written.

use vstd::hash_map::StringHashMap;
use vstd::prelude::*;

use crate::text;

verus! {

/// Something that happens while a device is being written.
#[derive(Debug)]
pub enum ProgressEvent<'a> {
    /// A new phase begins.
    Phase(&'a str),
    /// One of several items comes up, given by the path of its file.
    Item { operation: &'a str, current: usize, total: usize, name: &'a str },
    /// Something that is not reported.
    Other,
}

/// What is done to the output.
#[derive(Debug)]
pub enum OutputStep {
    /// A line is written, with a line feed after it.
    Line(String),
    /// What was written is passed on at once.
    Flush,
}

/// Reports events line by line, under names that mean something to the user.
///
/// The output works when it is redirected: there are no terminal escape
/// sequences in it, and no event takes more than a line.
pub struct ProgressReporter {
    labels: StringHashMap<String>,
}

/// The table once the first `n` pairs are entered; later pairs count.
pub open spec fn table_of(pairs: Seq<(String, String)>, n: int) -> Map<Seq<char>, Seq<char>>
    decreases n,
{
    if n <= 0 {
        Map::empty()
    } else {
        table_of(pairs, n - 1).insert(pairs[n - 1].0@, pairs[n - 1].1@)
    }
}

/// What is said of an event, where anything is.
pub open spec fn message_of(labels: Map<Seq<char>, Seq<char>>, event: ProgressEvent) -> Option<
    Seq<char>,
> {
    match event {
        ProgressEvent::Phase(name) => Some(name@ + "…"@),
        ProgressEvent::Item { operation, current, total, name } => Some(
            operation@ + " ["@ + text::decimal(current as nat) + "/"@ + text::decimal(total as nat)
                + "]: "@ + if labels.contains_key(name@) {
                labels[name@]
            } else {
                name@
            },
        ),
        ProgressEvent::Other => None,
    }
}

/// The line for a message: the minutes and seconds since the start, and the
/// message without control characters.
pub open spec fn line_of(message: Seq<char>, seconds: u64) -> Seq<char> {
    "  ["@ + text::two_digits((seconds / 60) as nat) + ":"@ + text::two_digits(
        (seconds % 60) as nat,
    ) + "] "@ + text::flattened(message)
}

impl ProgressReporter {
    /// The names that mean something to the user, by path.
    pub closed spec fn labels(self) -> Map<Seq<char>, Seq<char>> {
        self.labels@.map_values(|label: String| label@)
    }

    /// A reporter that knows these names.
    pub fn new(labels: Vec<(String, String)>) -> (reporter: ProgressReporter)
        ensures
            reporter.labels() == table_of(labels@, labels@.len() as int),
    {
        let mut reporter = ProgressReporter { labels: StringHashMap::new() };
        assert(reporter.labels() =~= Map::empty());
        let mut i: usize = 0;
        while i < labels.len()
            invariant
                i <= labels@.len(),
                reporter.labels() == table_of(labels@, i as int),
            decreases labels@.len() - i,
        {
            reporter.add_media(labels[i].0.as_str(), labels[i].1.clone());
            i += 1;
        }
        reporter
    }

    /// Gives the file at this path a name that means something to the user.
    pub fn add_media(&mut self, path: &str, label: String)
        ensures
            final(self).labels() == old(self).labels().insert(path@, label@),
    {
        self.labels.insert(path.to_owned(), label);
        assert(self.labels() =~= old(self).labels().insert(path@, label@));
    }

    /// What is written for an event that comes so many seconds after the start:
    /// a line that is passed on at once, or nothing.
    pub fn write_event(&self, event: &ProgressEvent, seconds: u64) -> (steps: Vec<OutputStep>)
        ensures
            match message_of(self.labels(), *event) {
                Some(message) => {
                    &&& steps@.len() == 2
                    &&& steps@[0] matches OutputStep::Line(line)
                    &&& line@ == line_of(message, seconds)
                    &&& steps@[1] == OutputStep::Flush
                },
                None => steps@.len() == 0,
            },
    {
        let mut steps: Vec<OutputStep> = Vec::new();
        let message: String = match event {
            ProgressEvent::Phase(name) => {
                let mut message = (*name).to_owned();
                message.append("…");
                message
            },
            ProgressEvent::Item { operation, current, total, name } => {
                let mut message = (*operation).to_owned();
                message.append(" [");
                message.append(text::number(*current as u64).as_str());
                message.append("/");
                message.append(text::number(*total as u64).as_str());
                message.append("]: ");
                match self.labels.get(name) {
                    Some(label) => message.append(label.as_str()),
                    None => message.append(name),
                }
                message
            },
            ProgressEvent::Other => return steps,
        };
        let mut line = "  [".to_owned();
        line.append(text::padded_number(seconds / 60).as_str());
        line.append(":");
        line.append(text::padded_number(seconds % 60).as_str());
        line.append("] ");
        line.append(text::flatten(message.as_str()).as_str());
        steps.push(OutputStep::Line(line));
        steps.push(OutputStep::Flush);
        steps
    }
}

} // verus!
