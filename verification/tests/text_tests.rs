use rael::rael::Color;
use rael::underterm::fonts::Scenario;
use rael::underterm::fonts::StyledText;
use rael::underterm::text::TextCommand;
use rael::underterm::text::TextWriter;
use rael::underterm::text::WriterResult;

fn styled(s: &str, fg: Color) -> StyledText {
    StyledText { content: s.to_string(), fg }
}

#[test]
fn typewriter_reveals_one_char_per_step() {
    let white = Color::new(255, 255, 255);
    let script = [TextCommand::Text("hi".to_string()), TextCommand::Delay(7)];
    let mut w = TextWriter::new(&script);
    assert_eq!(w.next_step(), WriterResult::Render(vec![styled("h", white)]));
    assert_eq!(w.next_step(), WriterResult::Render(vec![styled("hi", white)]));
    assert_eq!(w.next_step(), WriterResult::Wait(7));
    assert_eq!(w.next_step(), WriterResult::Finished);
    assert_eq!(w.next_step(), WriterResult::Finished);
}

#[test]
fn colored_text_keeps_its_color() {
    let yellow = Color::new(255, 255, 0);
    let script = [TextCommand::ColoredText("ab".to_string(), yellow)];
    let mut w = TextWriter::new(&script);
    assert_eq!(w.next_step(), WriterResult::Render(vec![styled("a", yellow)]));
    assert_eq!(w.next_step(), WriterResult::Render(vec![styled("ab", yellow)]));
    assert_eq!(w.next_step(), WriterResult::Finished);
}

#[test]
fn finished_commands_stay_in_history() {
    let white = Color::new(255, 255, 255);
    let red = Color::new(255, 0, 0);
    let script = [
        TextCommand::Text("a".to_string()),
        TextCommand::ColoredText("b".to_string(), red),
    ];
    let mut w = TextWriter::new(&script);
    assert_eq!(w.next_step(), WriterResult::Render(vec![styled("a", white)]));
    assert_eq!(
        w.next_step(),
        WriterResult::Render(vec![styled("a", white), styled("b", red)])
    );
    assert_eq!(w.next_step(), WriterResult::Finished);
}

#[test]
fn empty_text_is_consumed_in_one_step() {
    let white = Color::new(255, 255, 255);
    let script = [TextCommand::Text(String::new()), TextCommand::Delay(3)];
    let mut w = TextWriter::new(&script);
    assert_eq!(w.next_step(), WriterResult::Render(vec![styled("", white)]));
    assert_eq!(w.next_step(), WriterResult::Wait(3));
    assert_eq!(w.next_step(), WriterResult::Finished);
}

#[test]
fn scenario_rounds_anchor_up_to_even_row() {
    let bg = Color::new(0, 0, 0);
    let s = Scenario::new(bg, (4, 5, 2), Some((true, false)), 120);
    assert_eq!(s.x, 4);
    assert_eq!(s.y, 6);
    assert_eq!(s.z, 2);
    assert!(s.is_centered_x);
    assert!(!s.is_centered_y);
    assert_eq!(s.max_widht, 120);
    let t = Scenario::new(bg, (0, 8, 0), None, 60);
    assert_eq!(t.y, 8);
    assert!(!t.is_centered_x);
    assert!(!t.is_centered_y);
}
