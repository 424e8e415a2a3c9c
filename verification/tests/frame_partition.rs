use blend_render::frame_partition::{compute_partitions, Distribution, Partition};

fn args(p: &Partition) -> Vec<&str> {
    p.frame_args.iter().map(|s| s.as_str()).collect()
}

#[test]
fn chunks_even_split() {
    let parts = compute_partitions(1, 100, 4, Distribution::Chunks);
    assert_eq!(parts.len(), 4);
    assert_eq!(args(&parts[0]), ["-s", "1", "-e", "25", "-a"]);
    assert_eq!(args(&parts[1]), ["-s", "26", "-e", "50", "-a"]);
    assert_eq!(args(&parts[3]), ["-s", "76", "-e", "100", "-a"]);
    assert_eq!(parts[0].frames_label, "1-25");
}

#[test]
fn chunks_uneven_split_front_loaded() {
    // 10 frames across 3 procs -> 4,3,3
    let parts = compute_partitions(1, 10, 3, Distribution::Chunks);
    assert_eq!(parts.len(), 3);
    assert_eq!(args(&parts[0]), ["-s", "1", "-e", "4", "-a"]);
    assert_eq!(args(&parts[1]), ["-s", "5", "-e", "7", "-a"]);
    assert_eq!(args(&parts[2]), ["-s", "8", "-e", "10", "-a"]);
}

#[test]
fn count_clamped_to_frame_count() {
    // 2 frames, 8 procs requested -> only 2 partitions
    let parts = compute_partitions(5, 6, 8, Distribution::Chunks);
    assert_eq!(parts.len(), 2);
    assert_eq!(args(&parts[0]), ["-s", "5", "-e", "5", "-a"]);
    assert_eq!(parts[0].frames_label, "5");
    assert_eq!(args(&parts[1]), ["-s", "6", "-e", "6", "-a"]);
}

#[test]
fn interleave_uses_frame_jump() {
    let parts = compute_partitions(1, 100, 4, Distribution::Interleave);
    assert_eq!(parts.len(), 4);
    assert_eq!(args(&parts[0]), ["-s", "1", "-e", "100", "-j", "4", "-a"]);
    assert_eq!(args(&parts[2]), ["-s", "3", "-e", "100", "-j", "4", "-a"]);
    assert_eq!(parts[2].frames_label, "3-100 step 4");
}

#[test]
fn single_process_returns_one_partition() {
    let parts = compute_partitions(1, 50, 1, Distribution::Chunks);
    assert_eq!(parts.len(), 1);
    assert_eq!(args(&parts[0]), ["-s", "1", "-e", "50", "-a"]);
}

#[test]
fn distribution_names() {
    assert_eq!(Distribution::from_str("interleave"), Distribution::Interleave);
    assert_eq!(Distribution::from_str("chunks"), Distribution::Chunks);
    assert_eq!(Distribution::from_str("Interleave"), Distribution::Chunks);
    assert_eq!(Distribution::from_str(""), Distribution::Chunks);
}

#[test]
fn ends_in_either_order_give_the_same_split() {
    for dist in [Distribution::Chunks, Distribution::Interleave] {
        assert_eq!(compute_partitions(10, -3, 3, dist), compute_partitions(-3, 10, 3, dist));
    }
}

#[test]
fn no_processes_asked_for_means_one() {
    let parts = compute_partitions(1, 3, 0, Distribution::Interleave);
    assert_eq!(parts.len(), 1);
    assert_eq!(args(&parts[0]), ["-s", "1", "-e", "3", "-j", "1", "-a"]);
}

#[test]
fn indexes_count_the_processes() {
    let parts = compute_partitions(1, 9, 4, Distribution::Chunks);
    let indexes: Vec<usize> = parts.iter().map(|p| p.index).collect();
    assert_eq!(indexes, [0, 1, 2, 3]);
    let labels: Vec<&str> = parts.iter().map(|p| p.frames_label.as_str()).collect();
    assert_eq!(labels, ["1-3", "4-5", "6-7", "8-9"]);
}

#[test]
fn frames_up_to_the_last_number_are_split() {
    let parts = compute_partitions(i64::MAX - 2, i64::MAX, 2, Distribution::Chunks);
    assert_eq!(
        args(&parts[0]),
        ["-s", "9223372036854775805", "-e", "9223372036854775806", "-a"]
    );
    assert_eq!(
        args(&parts[1]),
        ["-s", "9223372036854775807", "-e", "9223372036854775807", "-a"]
    );
}

fn rendered(p: &Partition) -> Vec<i64> {
    let a = args(p);
    let first: i64 = a[1].parse().unwrap();
    let last: i64 = a[3].parse().unwrap();
    let step: usize = if a.len() == 7 { a[5].parse().unwrap() } else { 1 };
    (first..=last).step_by(step).collect()
}

#[test]
fn each_frame_is_rendered_by_one_process() {
    for dist in [Distribution::Chunks, Distribution::Interleave] {
        for count in 1..14 {
            let mut frames: Vec<i64> = Vec::new();
            for part in &compute_partitions(-4, 7, count, dist) {
                let own = rendered(part);
                assert!(!own.is_empty());
                frames.extend(own);
            }
            frames.sort();
            let expected: Vec<i64> = (-4..=7).collect();
            assert_eq!(frames, expected);
        }
    }
}
