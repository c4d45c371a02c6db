use weather_ku::lifecycle::{Action, Event, Lifecycle, Phase};
use weather_ku::pathfinder::{step, FileOption};

#[test]
fn a_service_starts_running() {
    let life = Lifecycle::new();
    assert_eq!(life.phase(), Phase::Running);
    assert_eq!(life.in_flight(), 0);
}

#[test]
fn a_running_service_serves_and_flushes() {
    let mut life = Lifecycle::new();
    assert_eq!(life.step(Event::Request), Action::Serve);
    assert_eq!(life.step(Event::Request), Action::Serve);
    assert_eq!(life.in_flight(), 2);
    assert_eq!(life.step(Event::Tick), Action::Flush);
    assert_eq!(life.step(Event::Flushed), Action::Wait);
    assert_eq!(life.step(Event::Finished), Action::Wait);
    assert_eq!(life.in_flight(), 1);
    assert_eq!(life.step(Event::Timeout), Action::Wait);
    assert_eq!(life.step(Event::Finished), Action::Wait);
    assert_eq!(life.step(Event::Finished), Action::Wait);
    assert_eq!(life.in_flight(), 0);
    assert_eq!(life.phase(), Phase::Running);
}

#[test]
fn shutdown_without_requests_in_flight_flushes_at_once() {
    let mut life = Lifecycle::new();
    assert_eq!(life.step(Event::Shutdown), Action::FinalFlush);
    assert_eq!(life.phase(), Phase::Draining);
    assert_eq!(life.step(Event::Request), Action::Refuse);
    assert_eq!(life.step(Event::Tick), Action::Wait);
    assert_eq!(life.step(Event::Timeout), Action::Wait);
    assert_eq!(life.step(Event::Shutdown), Action::Wait);
    assert_eq!(life.phase(), Phase::Draining);
    assert_eq!(life.step(Event::Flushed), Action::Exit);
    assert_eq!(life.phase(), Phase::Stopped);
}

#[test]
fn shutdown_waits_for_the_requests_in_flight() {
    let mut life = Lifecycle::new();
    assert_eq!(life.step(Event::Request), Action::Serve);
    assert_eq!(life.step(Event::Request), Action::Serve);
    assert_eq!(life.step(Event::Shutdown), Action::Wait);
    assert_eq!(life.phase(), Phase::Draining);
    assert_eq!(life.step(Event::Request), Action::Refuse);
    assert_eq!(life.in_flight(), 2);
    assert_eq!(life.step(Event::Flushed), Action::Wait);
    assert_eq!(life.phase(), Phase::Draining);
    assert_eq!(life.step(Event::Finished), Action::Wait);
    assert_eq!(life.step(Event::Finished), Action::FinalFlush);
    assert_eq!(life.step(Event::Finished), Action::Wait);
    assert_eq!(life.step(Event::Timeout), Action::Wait);
    assert_eq!(life.step(Event::Flushed), Action::Exit);
    assert_eq!(life.phase(), Phase::Stopped);
}

#[test]
fn the_drain_ends_when_its_time_is_up() {
    let mut life = Lifecycle::new();
    assert_eq!(life.step(Event::Request), Action::Serve);
    assert_eq!(life.step(Event::Shutdown), Action::Wait);
    assert_eq!(life.step(Event::Timeout), Action::FinalFlush);
    assert_eq!(life.step(Event::Finished), Action::Wait);
    assert_eq!(life.step(Event::Timeout), Action::Wait);
    assert_eq!(life.step(Event::Flushed), Action::Exit);
    assert_eq!(life.phase(), Phase::Stopped);
}

#[test]
fn a_stopped_service_does_nothing_more() {
    let mut life = Lifecycle::new();
    life.step(Event::Shutdown);
    life.step(Event::Flushed);
    assert_eq!(life.phase(), Phase::Stopped);
    assert_eq!(life.step(Event::Request), Action::Refuse);
    for event in [Event::Finished, Event::Tick, Event::Shutdown, Event::Timeout, Event::Flushed] {
        assert_eq!(life.step(event), Action::Wait);
        assert_eq!(life.phase(), Phase::Stopped);
    }
}

#[test]
fn the_file_walk_follows_each_choice() {
    assert_eq!(step(".", &FileOption::Going("data".to_string())), ("./data".to_string(), false));
    assert_eq!(step("./data", &FileOption::Done("w.txt".to_string())), ("./data/w.txt".to_string(), true));
    assert_eq!(step("./data/old", &FileOption::Back), ("./data".to_string(), false));
    assert_eq!(step("./data", &FileOption::Back), (".".to_string(), false));
    assert_eq!(step(".", &FileOption::Back), (".".to_string(), false));
    assert_eq!(step("", &FileOption::Back), ("".to_string(), false));
    assert_eq!(step("/", &FileOption::Back), ("".to_string(), false));
    assert_eq!(step("a/b/", &FileOption::Back), ("a/b".to_string(), false));
    assert_eq!(step("", &FileOption::Going("x".to_string())), ("/x".to_string(), false));
    for path in [".", "./a", "a/b/c", "/", "", "no slash", "a//b"] {
        let expected = match path.rsplit_once('/') {
            Some((head, _)) => head.to_string(),
            None => path.to_string(),
        };
        assert_eq!(step(path, &FileOption::Back).0, expected);
    }
}
