use e_lib::engine::jobs::{
    capture, decode_from, finish, kill, make_room, poll, prune, ready, shell_executable,
    shutdown_all, start, Capture, Job, Jobs, Status, MAX_CAPTURE, MAX_JOBS, RETAIN_FINISHED,
};

#[test]
fn a_poll_split_inside_a_character_loses_nothing() {
    let bytes = "héllo".as_bytes(); // 'é' is 0xc3 0xa9
    let (first, pos) = decode_from(&bytes[..2], 0);
    assert_eq!(first, "h");
    assert_eq!(pos, 1, "the incomplete 'é' must be left for the next poll");
    let (rest, end) = decode_from(bytes, pos);
    assert_eq!(rest, "éllo");
    assert_eq!(end, bytes.len());
}

#[test]
fn invalid_bytes_are_consumed_not_stuck_on() {
    let (text, pos) = decode_from(&[b'a', 0xff, b'b'], 0);
    assert_eq!(pos, 2, "the invalid byte must be consumed");
    assert!(text.contains('a'), "{text}");
    let (text2, pos2) = decode_from(&[b'a', 0xff, b'b'], pos);
    assert_eq!(text2, "b", "the rest is decoded on the next call");
    assert_eq!(pos2, 3, "every byte is eventually consumed");
}

#[test]
fn tail_keeps_the_newest_bytes_at_a_character_boundary() {
    let mut cap = Capture::new();
    cap.push("é".as_bytes());
    cap.push("é".as_bytes());
    cap.push("é".as_bytes()); // 6 bytes, boundaries at 0/2/4/6
    let t = cap.tail(2);
    assert_eq!(t.text, "é", "2 bytes is exactly the last character");
    assert_eq!(t.skipped, 4);

    let t = cap.tail(3);
    assert_eq!(t.text, "éé", "3 bytes must step back to the boundary at 2");
    assert_eq!(t.skipped, 2);
}

#[test]
fn take_new_advances_and_tail_does_not() {
    let mut cap = Capture::new();
    cap.push(b"one ");
    let t = cap.take_new(1000);
    assert_eq!(t.text, "one ");
    cap.push(b"two");
    let t = cap.take_new(1000);
    assert_eq!(t.text, "two", "the first poll's bytes must not be returned twice");
    let t = cap.tail(1000);
    assert_eq!(t.text, "one two", "tail must still see everything");
}

#[test]
fn take_new_respects_the_byte_budget_and_reports_the_skip() {
    let mut cap = Capture::new();
    cap.push(b"0123456789");
    let t = cap.take_new(4);
    assert_eq!(t.text, "6789", "take_new keeps the newest bytes");
    assert_eq!(t.skipped, 6);
    assert_eq!(t.end, 10, "the cursor lands past everything printed");
    let t = cap.take_new(4);
    assert_eq!(t.text, "", "nothing new after the budget was consumed");
    assert_eq!(t.end, 10);
}

#[test]
fn capture_is_capped_at_the_front_without_losing_the_count() {
    let mut cap = Capture::new();
    cap.push(&vec![b'x'; 3000]);
    let t = cap.tail(1000);
    assert_eq!(t.text.len(), 1000, "tail is bounded");
    assert_eq!(t.skipped, 2000, "skipped counts evicted bytes as unseen");
    assert_eq!(cap.total(), 3000, "total reflects what was actually printed");
}

#[test]
fn a_poll_after_a_big_backlog_reports_what_it_skipped() {
    let mut cap = Capture::new();
    cap.push(b"01234");
    let _ = cap.take_new(1000); // cursor at 5
    cap.push(&vec![b'y'; MAX_CAPTURE + 500]); // evicts far past the cursor
    let t = cap.take_new(100);
    assert_eq!(t.text.len(), 100);
    assert!(
        t.skipped >= MAX_CAPTURE,
        "the skipped count must include the bytes evicted past the cursor: {}",
        t.skipped
    );
}

fn job(id: &str, status: Status) -> Job {
    Job {
        id: id.into(),
        command: "echo".into(),
        cwd: "/tmp".into(),
        pid: 1,
        started_at: 0,
        cap: Capture::new(),
        status,
        killed: false,
    }
}

fn ids(jobs: &[Job]) -> Vec<&str> {
    jobs.iter().map(|j| j.id.as_str()).collect()
}

#[test]
fn pruning_drops_expired_finished_jobs_but_never_running_ones() {
    let now: u64 = 10_000_000;
    let mut map = vec![
        job("old", Status::Done { code: 0, at: now - RETAIN_FINISHED - 10_000 }),
        job("fresh", Status::Done { code: 0, at: now - 1_000 }),
        job("live", Status::Running),
    ];
    prune(&mut map, 3, RETAIN_FINISHED, now);
    assert!(!ids(&map).contains(&"old"), "expired finished jobs must go");
    assert!(ids(&map).contains(&"fresh") && ids(&map).contains(&"live"));

    prune(&mut map, 1, RETAIN_FINISHED, now);
    assert!(!ids(&map).contains(&"fresh"), "oldest finished goes before a live job");
    assert!(ids(&map).contains(&"live"), "a running job is never pruned");
}

#[test]
fn the_oldest_finished_job_makes_room_first() {
    let mut map = vec![
        job("b", Status::Done { code: 0, at: 5 }),
        job("c", Status::Done { code: 0, at: 9 }),
        job("a", Status::Done { code: 0, at: 5 }),
    ];
    prune(&mut map, 2, RETAIN_FINISHED, 10);
    assert_eq!(ids(&map), vec!["b", "c"]);
}

#[test]
fn a_job_is_reported_while_it_runs_and_when_it_has_ended() {
    let mut jobs = Jobs::new();
    assert!(make_room(&mut jobs, 0).is_ok());
    let id = start(&mut jobs, "/tmp", "build", 42, 1_000, 0xabc).unwrap();
    assert_eq!(id, "bg-abc-1");
    assert_eq!(ready(&jobs, &id), Ok(false));
    assert_eq!(
        poll(&mut jobs, &id, 3_500).unwrap(),
        "[job bg-abc-1] running, 2s elapsed, 0 bytes of output so far\n(no new output since the last poll)"
    );
    capture(&mut jobs, &id, b"working\n");
    assert_eq!(ready(&jobs, &id), Ok(true));
    assert_eq!(
        poll(&mut jobs, &id, 3_500).unwrap(),
        "[job bg-abc-1] running, 2s elapsed, 8 bytes of output so far\nworking\n"
    );
    finish(&mut jobs, &id, 3, 6_000);
    assert_eq!(
        poll(&mut jobs, &id, 99_000).unwrap(),
        "[job bg-abc-1] exited with code 3 after 5s (total output 8 bytes)"
    );
    let (text, pid) = kill(&mut jobs, &id).unwrap();
    assert_eq!((text.as_str(), pid), ("[job bg-abc-1] already exited; nothing to kill", None));
}

#[test]
fn a_killed_job_says_so() {
    let mut jobs = Jobs::new();
    let id = start(&mut jobs, "/tmp", "sleep", 7, 0, 1).unwrap();
    let (text, pid) = kill(&mut jobs, &id).unwrap();
    assert_eq!(pid, Some(7));
    assert!(text.contains("kill signalled") && text.contains("pid 7"), "{text}");
    finish(&mut jobs, &id, -1, 2_000);
    let out = poll(&mut jobs, &id, 2_000).unwrap();
    assert_eq!(
        out,
        "[job bg-1-1] killed by request after 2s (process tree terminated, exit code -1)\n(the command printed nothing)"
    );
}

#[test]
fn a_poll_says_what_it_skipped() {
    let mut jobs = Jobs::new();
    let id = start(&mut jobs, "/tmp", "x", 7, 0, 1).unwrap();
    capture(&mut jobs, &id, &vec![b'z'; 9_000]);
    let out = poll(&mut jobs, &id, 0).unwrap();
    assert!(out.contains("[… skipped 1000 bytes printed between polls"), "{out}");
}

#[test]
fn polling_an_unknown_id_is_an_error_not_a_panic() {
    let mut jobs = Jobs::new();
    assert!(poll(&mut jobs, "bg-does-not-exist", 0).is_err());
    assert!(kill(&mut jobs, "bg-does-not-exist").is_err());
    assert!(ready(&jobs, "bg-does-not-exist").is_err());
}

#[test]
fn a_running_job_with_no_new_output_still_reports_status() {
    let mut jobs = Jobs::new();
    let id = start(&mut jobs, "/tmp", "Start-Sleep -Seconds 5", 7, 0, 1).expect("start");
    let out = poll(&mut jobs, &id, 0).expect("poll");
    assert!(out.contains("running"), "{out}");
}

#[test]
fn jobs_are_limited_and_shut_down() {
    let mut jobs = Jobs::new();
    for i in 0..MAX_JOBS {
        assert!(make_room(&mut jobs, 0).is_ok());
        start(&mut jobs, "/tmp", "x", i as u32, 0, 1).unwrap();
    }
    let refused = make_room(&mut jobs, 0).expect_err("full");
    assert_eq!(refused, "too many background jobs (32); poll or kill the existing ones first");
    assert!(start(&mut jobs, "/tmp", "x", 99, 0, 1).is_err());
    let first = jobs.jobs[0].id.clone();
    finish(&mut jobs, &first, 0, 1);
    assert!(make_room(&mut jobs, 2).is_ok(), "a finished job makes room");
    assert_eq!(shutdown_all(&mut jobs).len(), MAX_JOBS - 1);
    assert!(jobs.jobs.is_empty());
    assert_eq!(shell_executable(false), "pwsh");
}

#[test]
fn the_newest_no_bytes_are_none() {
    let mut c = Capture::new();
    c.push(b"ab");
    let t = c.tail(0);
    assert_eq!((t.text.as_str(), t.skipped), ("", 2), "both bytes are reported as unseen");
    let t = c.take_new(0);
    assert_eq!((t.text.as_str(), t.skipped, t.end), ("", 2, 2));
    assert!(!c.has_new());
    assert_eq!(Capture::new().tail(0).skipped, 0);
}

#[test]
fn polls_between_the_bytes_of_characters_lose_nothing() {
    let text = "a€é💡z";
    let mut cap = Capture::new();
    let mut seen = String::new();
    for b in text.as_bytes() {
        cap.push(&[*b]);
        seen.push_str(&cap.take_new(1000).text);
    }
    assert_eq!(seen, text);
}
