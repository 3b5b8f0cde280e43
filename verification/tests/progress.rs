use copypod::progress::{OutputStep, ProgressEvent, ProgressReporter};

#[derive(Default)]
struct Output {
    text: String,
    flushes: usize,
}

impl Output {
    fn take(&mut self, steps: Vec<OutputStep>) {
        for step in steps {
            match step {
                OutputStep::Line(line) => {
                    self.text.push_str(&line);
                    self.text.push('\n');
                }
                OutputStep::Flush => self.flushes += 1,
            }
        }
    }
}

#[test]
fn reports_real_work_with_counters_song_names_and_immediate_flush() {
    let mut reporter = ProgressReporter::new(Vec::new());
    reporter.add_media(
        "iPod_Control/Music/F00/ABCD.mp3",
        "Artist — Song\nTitle".to_owned(),
    );
    let mut output = Output::default();
    output.take(reporter.write_event(&ProgressEvent::Phase("Backing up"), 0));
    output.take(reporter.write_event(
        &ProgressEvent::Item {
            operation: "Installing",
            current: 2,
            total: 3,
            name: "iPod_Control/Music/F00/ABCD.mp3",
        },
        0,
    ));
    output.take(reporter.write_event(
        &ProgressEvent::Item {
            operation: "Installing",
            current: 3,
            total: 3,
            name: "iPod_Control/iTunes/iTunesDB",
        },
        0,
    ));
    let text = output.text;
    assert!(text.contains("Backing up…"));
    assert!(text.contains("Installing [2/3]: Artist — Song Title"));
    assert!(text.contains("Installing [3/3]: iPod_Control/iTunes/iTunesDB"));
    assert_eq!(text.lines().count(), 3);
    assert_eq!(output.flushes, 3);
}

#[test]
fn recovery_reports_paths_without_needing_library_labels() {
    let reporter = ProgressReporter::new(Vec::new());
    let mut output = Output::default();
    output.take(reporter.write_event(&ProgressEvent::Phase("Reading recovery journal"), 0));
    output.take(reporter.write_event(
        &ProgressEvent::Item {
            operation: "Restoring recovery backup",
            current: 1,
            total: 2,
            name: "iPod_Control/iTunes/iTunesDB",
        },
        0,
    ));
    output.take(reporter.write_event(
        &ProgressEvent::Phase("Removing recovery journal and backups"),
        0,
    ));
    let text = output.text;
    assert!(text.contains("Reading recovery journal"));
    assert!(text.contains("Restoring recovery backup [1/2]: iPod_Control/iTunes/iTunesDB"));
    assert!(text.contains("Removing recovery journal and backups"));
    assert_eq!(output.flushes, 3);
}

#[test]
fn rename_preservation_publication_and_terminal_recovery_are_visible() {
    let reporter = ProgressReporter::new(Vec::new());
    let mut output = Output::default();
    let phases = [
        "Rechecking device before installation",
        "Preserving original file by rename",
        "Publishing verified replacement",
        "Transaction already rolled back; keeping restored files",
    ];
    for phase in phases {
        output.take(reporter.write_event(&ProgressEvent::Phase(phase), 0));
    }
    let text = output.text;
    for phase in phases {
        assert!(text.contains(phase));
    }
    assert_eq!(output.flushes, phases.len());
    assert_eq!(text.lines().count(), phases.len());
}

#[test]
fn incremental_artwork_and_truncation_progress_are_flushed() {
    let reporter = ProgressReporter::new(Vec::new());
    let mut output = Output::default();
    let path = "iPod_Control/Artwork/F1060_1.ithmb";
    output.take(reporter.write_event(
        &ProgressEvent::Item {
            operation: "Appending artwork",
            current: 3,
            total: 7,
            name: path,
        },
        0,
    ));
    for phase in [
        "Reserving recovery journal space",
        "Preparing verified thumbnail suffix",
        "Appending verified thumbnail suffix",
    ] {
        output.take(reporter.write_event(&ProgressEvent::Phase(phase), 0));
    }
    output.take(reporter.write_event(
        &ProgressEvent::Item {
            operation: "Truncating appended thumbnail",
            current: 5,
            total: 6,
            name: path,
        },
        0,
    ));
    let text = output.text;
    assert!(text.contains(&format!("Appending artwork [3/7]: {path}")));
    assert!(text.contains("Preparing verified thumbnail suffix"));
    assert!(text.contains("Appending verified thumbnail suffix"));
    assert!(text.contains(&format!("Truncating appended thumbnail [5/6]: {path}")));
    assert_eq!(output.flushes, 5);
    assert_eq!(text.lines().count(), 5);
}

fn line(reporter: &ProgressReporter, event: &ProgressEvent, seconds: u64) -> String {
    match reporter.write_event(event, seconds).remove(0) {
        OutputStep::Line(line) => line,
        OutputStep::Flush => panic!("a line comes first"),
    }
}

#[test]
fn lines_begin_with_minutes_and_seconds() {
    let reporter = ProgressReporter::new(Vec::new());
    let event = ProgressEvent::Phase("Installing");
    assert_eq!(line(&reporter, &event, 0), "  [00:00] Installing…");
    assert_eq!(line(&reporter, &event, 65), "  [01:05] Installing…");
    assert_eq!(line(&reporter, &event, 6_039), "  [100:39] Installing…");
}

#[test]
fn other_events_are_not_reported() {
    let reporter = ProgressReporter::new(Vec::new());
    assert!(reporter.write_event(&ProgressEvent::Other, 3).is_empty());
}

#[test]
fn later_names_replace_earlier_ones() {
    let mut reporter = ProgressReporter::new(vec![
        ("a".to_owned(), "first".to_owned()),
        ("a".to_owned(), "second".to_owned()),
    ]);
    let event = ProgressEvent::Item { operation: "Copying", current: 1, total: 1, name: "a" };
    assert_eq!(line(&reporter, &event, 1), "  [00:01] Copying [1/1]: second");
    reporter.add_media("a", "third".to_owned());
    assert_eq!(line(&reporter, &event, 1), "  [00:01] Copying [1/1]: third");
}

#[test]
fn control_characters_become_spaces() {
    let reporter = ProgressReporter::new(Vec::new());
    let text = line(&reporter, &ProgressEvent::Phase("a\u{1b}[2J\r\n\u{7f}\u{9f}b"), 0);
    assert_eq!(text, "  [00:00] a [2J    b…");
    assert!(!text.chars().any(char::is_control));
}

#[test]
fn control_characters_are_what_the_standard_library_calls_so() {
    let reporter = ProgressReporter::new(Vec::new());
    let all: String = ('\0'..=char::MAX).collect();
    let flat: String = all.chars().map(|c| if c.is_control() { ' ' } else { c }).collect();
    let text = line(&reporter, &ProgressEvent::Phase(&all), 0);
    assert_eq!(text, format!("  [00:00] {flat}…"));
}
