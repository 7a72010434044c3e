use portfolio_api::{get_job, list_jobs, CalendarDate, Job, Outcome};

fn job(id: i32, ongoing: bool) -> Job {
    Job {
        id,
        start_date: CalendarDate::from_ymd(2020, 1, 15).unwrap(),
        end_date: if ongoing { None } else { CalendarDate::from_ymd(2022, 6, 30) },
        is_current_job: ongoing,
        company_name: format!("Company {}", id),
        company_website: "https://company.example".to_string(),
        description: "work".to_string(),
        roles: "engineer".to_string(),
        responsibilities: "building".to_string(),
    }
}

#[test]
fn list_jobs_orders_by_id() {
    let jobs = list_jobs(vec![job(3, true), job(1, false), job(2, false)]);
    let ids: Vec<i32> = jobs.iter().map(|j| j.id).collect();
    assert_eq!(ids, vec![1, 2, 3]);
    assert!(jobs[2].is_current_job);
    assert_eq!(jobs[2].end_date, None);
}

#[test]
fn get_job_returns_the_matching_row() {
    let found = get_job(vec![job(1, false), job(10, true)], 10).expect("job 10 exists");
    assert_eq!(found.id, 10);
    assert_eq!(found.company_name, "Company 10");
}

#[test]
fn get_missing_job_is_not_found() {
    let found = get_job(vec![job(1, false), job(2, true)], 999);
    assert!(found.is_none());
    let outcome = Outcome::of_lookup(&found);
    assert_eq!(outcome, Outcome::NotFound);
    assert_eq!(outcome.http_status(), 404);
}

#[test]
fn outcome_statuses() {
    assert_eq!(Outcome::Found.http_status(), 200);
    assert_eq!(Outcome::NotFound.http_status(), 404);
    assert_eq!(Outcome::StorageError.http_status(), 500);
    assert_eq!(Outcome::of_lookup(&Some(1)), Outcome::Found);
}

#[test]
fn calendar_dates() {
    let d = CalendarDate::from_ymd(2024, 2, 29).unwrap();
    assert_eq!((d.year(), d.month(), d.day()), (2024, 2, 29));
    assert!(CalendarDate::from_ymd(2023, 2, 29).is_none());
    assert!(CalendarDate::from_ymd(1900, 2, 29).is_none());
    assert!(CalendarDate::from_ymd(2000, 2, 29).is_some());
    assert!(CalendarDate::from_ymd(2024, 4, 31).is_none());
    assert!(CalendarDate::from_ymd(2024, 12, 31).is_some());
    assert!(CalendarDate::from_ymd(2024, 13, 1).is_none());
    assert!(CalendarDate::from_ymd(2024, 0, 1).is_none());
    assert!(CalendarDate::from_ymd(2024, 1, 0).is_none());
    assert!(CalendarDate::from_ymd(-4, 2, 29).is_some());
}
