use liara_core::when::{event_moment, Day, Moment};

fn today() -> Day {
    // a Tuesday
    Day { year: 2026, month: 7, day: 21 }
}

fn at(m: Option<Moment>) -> Option<(i32, u32, u32, u32, u32, u32)> {
    m.map(|m| (m.year, m.month, m.day, m.hour, m.minute, m.second))
}

#[test]
fn absolute_dates() {
    assert_eq!(at(event_moment(" 2026-08-01 14:30 ", &today())), Some((2026, 8, 1, 14, 30, 0)));
    assert_eq!(at(event_moment("2026-08-01T14:30", &today())), Some((2026, 8, 1, 14, 30, 0)));
    assert_eq!(at(event_moment("01/08/2026 14.30", &today())), Some((2026, 8, 1, 14, 30, 0)));
    assert_eq!(at(event_moment("2026-08-01", &today())), Some((2026, 8, 1, 9, 0, 0)));
    assert_eq!(at(event_moment("01/08/2026", &today())), Some((2026, 8, 1, 9, 0, 0)));
}

#[test]
fn relative_dates() {
    assert_eq!(at(event_moment("domani alle 16", &today())), Some((2026, 7, 22, 16, 0, 0)));
    assert_eq!(at(event_moment("Dopodomani 18:45", &today())), Some((2026, 7, 23, 18, 45, 0)));
    assert_eq!(at(event_moment("stasera", &today())), Some((2026, 7, 21, 9, 0, 0)));
    assert_eq!(at(event_moment("tra 3 giorni alle 10.30", &today())), Some((2026, 7, 24, 10, 30, 0)));
    assert_eq!(at(event_moment("tra un'ora", &today())), None);
}

#[test]
fn weekdays_are_the_next_one() {
    assert_eq!(at(event_moment("venerdì", &today())), Some((2026, 7, 24, 9, 0, 0)));
    // said on a Tuesday, "martedì" is next week's
    assert_eq!(at(event_moment("martedi alle 8", &today())), Some((2026, 7, 28, 8, 0, 0)));
    assert_eq!(at(event_moment("lunedì", &today())), Some((2026, 7, 27, 9, 0, 0)));
}

#[test]
fn nothing_recognised() {
    assert_eq!(at(event_moment("boh", &today())), None);
    assert_eq!(at(event_moment("", &today())), None);
}
