use vault_watch::collectors::diskstats::{
    interval_counters, parse_snapshot, DiskStat, DiskstatsSampler, DiskstatsSubject,
};

const BASE: &str = "8 0 sda 10 1 2048 20 20 2 4096 40 3 500 700";
const DISCARD: &str = "259 0 nvme0n1 1 2 3 4 5 6 7 8 9 10 11 12 13 14 15";
const FLUSH: &str = "253 0 dm-0 1 2 3 4 5 6 7 8 9 10 11 12 13 14 15 16 17";

const SECOND: u128 = 1_000_000_000;

#[test]
fn parses_base_discard_flush_and_multiple_devices() {
    let snapshot = parse_snapshot(&format!("{BASE}\n{DISCARD}\n{FLUSH}\n")).unwrap();

    assert_eq!(snapshot.len(), 3);
    assert_eq!(snapshot[0].name, "sda");
    assert_eq!(snapshot[0].discards_completed, None);
    assert_eq!(snapshot[1].discards_completed, Some(12));
    assert_eq!(snapshot[1].flush_requests, None);
    assert_eq!(snapshot[2].flush_requests, Some(16));
    assert_eq!(snapshot[2].time_flushing_ms, Some(17));
}

#[test]
fn rejects_malformed_mandatory_and_incomplete_optional_fields() {
    assert!(parse_snapshot("8 0 sda 1 2 bad 4 5 6 7 8 9 10 11").is_err());
    assert!(parse_snapshot("8 0 sda 1 2 3 4 5 6 7 8 9 10 11 12").is_err());
}

#[test]
fn calculates_exact_interval_counters() {
    let previous = stat([0, 0, 0, 0, 0, 0, 0, 0]);
    let current = stat([100, 2048, 500, 50, 4096, 1_000, 750, 1_500]);

    let interval = interval_counters(&previous, &current, SECOND).unwrap();

    assert_eq!(interval.reads, 100);
    assert_eq!(interval.sectors_read, 2048);
    assert_eq!(interval.read_time_ms, 500);
    assert_eq!(interval.writes, 50);
    assert_eq!(interval.sectors_written, 4096);
    assert_eq!(interval.write_time_ms, 1_000);
    assert_eq!(interval.io_ticks_ms, 750);
    assert_eq!(interval.weighted_time_ms, 1_500);
    assert_eq!(interval.elapsed_nanos, SECOND);
}

#[test]
fn idle_interval_keeps_in_flight_count() {
    let previous = stat([1, 2, 3, 4, 5, 6, 7, 8]);
    let mut current = previous.clone();
    current.ios_in_progress = 4;

    let interval = interval_counters(&previous, &current, SECOND).unwrap();

    assert_eq!(interval.reads, 0);
    assert_eq!(interval.writes, 0);
    assert_eq!(interval.ios_in_progress, 4);
}

#[test]
fn reset_zero_interval_and_dev_t_change_skip_interval() {
    let previous = stat([10, 20, 30, 40, 50, 60, 70, 80]);
    let reset = stat([9, 19, 29, 39, 49, 59, 69, 79]);
    assert!(interval_counters(&previous, &reset, SECOND).is_none());
    assert!(interval_counters(&previous, &previous, 0).is_none());

    let mut replaced = previous.clone();
    replaced.minor = 1;
    assert!(interval_counters(&previous, &replaced, SECOND).is_none());
}

#[test]
fn sampler_filters_scope_and_rebaselines_generation_and_reappearance() {
    let mut sampler = DiskstatsSampler::default();
    let started: u128 = 5 * SECOND;
    let subject = |diskseq| DiskstatsSubject {
        name: "sda".into(),
        dev_t: Some((8, 0)),
        diskseq: Some(diskseq),
    };
    let baseline = format!(
        "{}\n{}\n",
        line("sda", 8, 0, [10, 0, 100, 20, 10, 0, 100, 20, 0, 20, 20]),
        line("sda1", 8, 1, [5, 0, 50, 10, 5, 0, 50, 10, 0, 10, 10]),
    );
    assert!(
        sampler
            .sample_content(&baseline, started, &[subject(1)])
            .unwrap()
            .is_empty()
    );

    let next = line("sda", 8, 0, [20, 0, 2_148, 40, 20, 0, 2_148, 40, 0, 40, 40]);
    let metrics = sampler
        .sample_content(&next, started + SECOND, &[subject(1)])
        .unwrap();
    assert_eq!(metrics.len(), 1);
    assert_eq!(metrics[0].0, "sda");

    // Same kernel name/dev_t but a new diskseq is a replacement baseline,
    // even if its counters are already larger than the previous device.
    assert!(
        sampler
            .sample_content(
                &line(
                    "sda",
                    8,
                    0,
                    [100, 0, 20_000, 100, 100, 0, 20_000, 100, 0, 100, 100],
                ),
                started + 2 * SECOND,
                &[subject(2)],
            )
            .unwrap()
            .is_empty()
    );

    assert!(
        sampler
            .sample_content("", started + 3 * SECOND, &[subject(2)])
            .unwrap()
            .is_empty()
    );
    assert_eq!(sampler.baseline_count(), 0);
    assert!(
        sampler
            .sample_content(
                &line(
                    "sda",
                    8,
                    0,
                    [200, 0, 40_000, 200, 200, 0, 40_000, 200, 0, 200, 200],
                ),
                started + 4 * SECOND,
                &[subject(2)],
            )
            .unwrap()
            .is_empty()
    );
}

#[test]
fn unparsable_snapshot_keeps_baselines() {
    let mut sampler = DiskstatsSampler::default();
    let subject = DiskstatsSubject {
        name: "sda".into(),
        dev_t: Some((8, 0)),
        diskseq: Some(1),
    };
    let first = line("sda", 8, 0, [1, 0, 1, 1, 1, 0, 1, 1, 0, 1, 1]);
    assert!(sampler.sample_content(&first, SECOND, &[subject.clone()]).unwrap().is_empty());
    assert_eq!(sampler.baseline_count(), 1);
    assert!(sampler
        .sample_content("8 0 sda 1 2 bad 4 5 6 7 8 9 10 11", 2 * SECOND, &[subject])
        .is_err());
    assert_eq!(sampler.baseline_count(), 1);
}

fn line(name: &str, major: u32, minor: u32, counters: [u64; 11]) -> String {
    format!(
        "{major} {minor} {name} {}",
        counters
            .iter()
            .map(u64::to_string)
            .collect::<Vec<_>>()
            .join(" ")
    )
}

fn stat(counters: [u64; 8]) -> DiskStat {
    let [
        reads,
        sectors_read,
        read_time,
        writes,
        sectors_written,
        write_time,
        io_ticks,
        weighted_time,
    ] = counters;
    DiskStat {
        major: 8,
        minor: 0,
        name: "sda".into(),
        reads_completed: reads,
        reads_merged: 0,
        sectors_read,
        time_reading_ms: read_time,
        writes_completed: writes,
        writes_merged: 0,
        sectors_written,
        time_writing_ms: write_time,
        ios_in_progress: 0,
        io_ticks_ms: io_ticks,
        weighted_time_in_queue_ms: weighted_time,
        discards_completed: None,
        discards_merged: None,
        sectors_discarded: None,
        time_discarding_ms: None,
        flush_requests: None,
        time_flushing_ms: None,
    }
}
