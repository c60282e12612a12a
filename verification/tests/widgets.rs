//! Widget views: filtered, ordered snapshots of the event list.

use studyplan::calendar::Date;
use studyplan::model::Event;
use studyplan::model::Exam;
use studyplan::pdf::count_pdf_pages;
use studyplan::widget::{today_events, week_events, week_range, pending_exams};

fn ev(date: &str, title: &str, time_start: &str) -> Event {
    Event {
        id: title.to_string(),
        date: date.to_string(),
        title: title.to_string(),
        time_start: time_start.to_string(),
        completed: false,
        reminders: None,
        sent_markers: Vec::new(),
    }
}

#[test]
fn today_view_filters_and_sorts_by_start_time() {
    let events = vec![
        ev("2024-06-10", "Late", "15:00"),
        ev("2024-06-11", "OtherDay", "08:00"),
        ev("2024-06-10", "Early", "08:30"),
        ev("2024-06-10", "NoTime", ""),
    ];
    let d = Date { year: 2024, month: 6, day: 10 };
    let r = today_events(events, &d);
    let titles: Vec<&str> = r.iter().map(|e| e.title.as_str()).collect();
    assert_eq!(titles, vec!["NoTime", "Early", "Late"]);
}

#[test]
fn week_range_runs_monday_to_sunday() {
    // 2024-06-10 is a Monday; its week spans day numbers for 06-10..06-16.
    let monday = Date { year: 2024, month: 6, day: 10 };
    let (sow, eow) = week_range(&monday);
    assert_eq!(eow - sow, 6);
    assert_eq!(sow, studyplan::calendar::day_number(&monday));
    let sunday = Date { year: 2024, month: 6, day: 16 };
    let (sow2, eow2) = week_range(&sunday);
    assert_eq!((sow2, eow2), (sow, eow));
    let next_monday = Date { year: 2024, month: 6, day: 17 };
    let (sow3, _) = week_range(&next_monday);
    assert_eq!(sow3, eow + 1);
}

#[test]
fn week_view_filters_range_and_sorts_by_date_then_time() {
    let events = vec![
        ev("2024-06-12", "WedLate", "18:00"),
        ev("2024-06-09", "LastSunday", "10:00"),
        ev("2024-06-16", "Sunday", "09:00"),
        ev("2024-06-12", "WedEarly", "07:00"),
        ev("2024-06-10", "Monday", "12:00"),
        ev("2024-06-17", "NextMonday", "08:00"),
        ev("garbled", "Bad", "08:00"),
    ];
    let today = Date { year: 2024, month: 6, day: 13 };
    let r = week_events(events, &today);
    let titles: Vec<&str> = r.iter().map(|e| e.title.as_str()).collect();
    assert_eq!(titles, vec!["Monday", "WedEarly", "WedLate", "Sunday"]);
}

#[test]
fn exams_view_hides_passed_and_sorts_unscheduled_last() {
    let mk = |date: &str, title: &str, status: &str| Exam {
        exam_date: date.to_string(),
        title: title.to_string(),
        status: status.to_string(),
    };
    let exams = vec![
        mk("2024-09-01", "Analysis", "planned"),
        mk("", "Geometry", "planned"),
        mk("2024-06-20", "Physics", "passed"),
        mk("2024-07-15", "Logic", "booked"),
    ];
    let r = pending_exams(exams);
    let titles: Vec<&str> = r.iter().map(|e| e.title.as_str()).collect();
    assert_eq!(titles, vec!["Logic", "Analysis", "Geometry"]);
}

#[test]
fn pdf_page_count_matches_markers() {
    let doc = b"%PDF-1.4\n1 0 obj\n<< /Type /Pages /Kids [] >>\nendobj\n2 0 obj\n<< /Type /Page >>\nendobj\n3 0 obj\n<< /Type /Page\n>>\nendobj\n".to_vec();
    assert_eq!(count_pdf_pages(&doc), 2);
    assert_eq!(count_pdf_pages(&b"no pages here".to_vec()), 0);
    assert_eq!(count_pdf_pages(&Vec::new()), 0);
}
