use blend_render::frame_partition::{compute_partitions, Distribution};
use blend_render::frame_range::AnimationSettings;
use blend_render::render_plan::{
    blender_query, choose_render, has_data_sync, may_start, plan_render, request_complaints,
    single_args, visible_device, wanted_processes, worker_args, ParallelSettings, RenderSettings,
    RenderStep,
};

fn parallel(enabled: &str, process_count: &str, gpu_count: &str) -> ParallelSettings {
    ParallelSettings {
        enabled: enabled.to_string(),
        process_count: process_count.to_string(),
        gpu_count: gpu_count.to_string(),
    }
}

fn settings(parallel: ParallelSettings, single: &str, range: &str) -> RenderSettings {
    RenderSettings {
        parallel,
        distribution: "interleave".to_string(),
        animation: AnimationSettings {
            single_frame_status: single.to_string(),
            range_status: range.to_string(),
            start_frame: "1".to_string(),
            end_frame: "100".to_string(),
        },
        anime_query: "-s 1 -e 100 -a".to_string(),
        engine_query: "-E CYCLES".to_string(),
    }
}

fn keys(list: &[&str]) -> Option<Vec<String>> {
    Some(list.iter().map(|s| s.to_string()).collect())
}

#[test]
fn good_request_has_no_complaints() {
    let complaints = request_complaints("false", "true", &keys(&["data_sync"]));
    assert!(complaints.is_empty());
    assert!(has_data_sync(&keys(&["other", "data_sync"])));
}

#[test]
fn every_complaint_is_made_in_turn() {
    assert_eq!(
        request_complaints("true", "false", &None),
        [
            "Blender is already running. Cannot run duplicate task",
            "Blend file not exist. Please upload it first",
            "Input data field cannot be empty",
            "Non valid schema. Enter your blend command with a key `data_sync`",
        ]
    );
    assert_eq!(
        request_complaints("false", "true", &keys(&["data"])),
        ["Non valid schema. Enter your blend command with a key `data_sync`"]
    );
    assert_eq!(request_complaints("false", "true", &keys(&[])).len(), 2);
    assert!(!has_data_sync(&None));
}

#[test]
fn rendering_starts_with_a_scene_and_an_idle_blender() {
    let good = keys(&["data_sync"]);
    assert!(may_start("false", "true", &good));
    assert!(!may_start("true", "true", &good));
    assert!(!may_start("false", "false", &good));
    assert!(!may_start("", "true", &good));
}

#[test]
fn complaint_of_any_kind_starts_nothing() {
    assert!(!may_start("false", "true", &None));
    assert!(!may_start("false", "true", &keys(&[])));
    assert!(!may_start("false", "true", &keys(&["data"])));
    for is_rendering in ["true", "false", ""] {
        for file_present in ["true", "false", ""] {
            for given in [None, keys(&[]), keys(&["x"]), keys(&["data_sync"])] {
                if !request_complaints(is_rendering, file_present, &given).is_empty() {
                    assert!(!may_start(is_rendering, file_present, &given));
                }
            }
        }
    }
}

#[test]
fn processes_are_capped_by_gpus() {
    assert_eq!(wanted_processes(&parallel("true", "4", "2")), Some(2));
    assert_eq!(wanted_processes(&parallel("true", "2", "8")), Some(2));
    assert_eq!(wanted_processes(&parallel("false", "4", "4")), None);
    assert_eq!(wanted_processes(&parallel("true", "1", "4")), None);
    assert_eq!(wanted_processes(&parallel("true", "4", "1")), None);
    assert_eq!(wanted_processes(&parallel("true", "4", "0")), None);
    assert_eq!(wanted_processes(&parallel("true", "many", "4")), None);
    assert_eq!(wanted_processes(&parallel("true", "4", "-4")), None);
}

#[test]
fn chosen_range_is_shared() {
    let plan = plan_render(&settings(parallel("true", "4", "4"), "false", "true"));
    let expected = compute_partitions(1, 100, 4, Distribution::Interleave);
    assert_eq!(plan, RenderStep::Parallel(expected));
}

#[test]
fn one_process_renders_what_is_not_shared() {
    let query = RenderStep::Single("-s 1 -e 100 -a -E CYCLES".to_string());
    assert_eq!(plan_render(&settings(parallel("false", "4", "4"), "false", "true")), query);
    assert_eq!(plan_render(&settings(parallel("true", "4", "4"), "true", "true")), query);
    assert_eq!(plan_render(&settings(parallel("true", "4", "1"), "false", "false")), query);
}

#[test]
fn scene_is_asked_for_its_range() {
    let wish = settings(parallel("true", "4", "4"), "false", "false");
    assert_eq!(plan_render(&wish), RenderStep::Probe);
    let query = RenderStep::Single("-s 1 -e 100 -a -E CYCLES".to_string());
    assert_eq!(choose_render(&wish, None), query);
    assert_eq!(choose_render(&wish, Some((7, 7))), query);
    assert_eq!(choose_render(&wish, Some((9, 7))), query);
    let expected = compute_partitions(7, 9, 4, Distribution::Interleave);
    assert_eq!(expected.len(), 3);
    assert_eq!(choose_render(&wish, Some((7, 9))), RenderStep::Parallel(expected));
}

#[test]
fn command_lines() {
    let query = blender_query("-f  3", "-E CYCLES\t--cycles-device OPTIX ");
    assert_eq!(
        single_args("blend-folder/a b.blend", &query),
        [
            "-b",
            "blend-folder/a b.blend",
            "-o",
            "./output/",
            "-P",
            "cycles_optix_denoise_logic.py",
            "-f",
            "3",
            "-E",
            "CYCLES",
            "--cycles-device",
            "OPTIX",
        ]
    );
    let parts = compute_partitions(1, 10, 3, Distribution::Chunks);
    assert_eq!(
        worker_args("blend-folder/a.blend", &parts[1], " -E CYCLES"),
        [
            "-b",
            "blend-folder/a.blend",
            "-o",
            "./output/",
            "-P",
            "cycles_optix_denoise_logic.py",
            "-s",
            "5",
            "-e",
            "7",
            "-a",
            "-E",
            "CYCLES",
        ]
    );
    assert_eq!(visible_device(&parts[2]), "2");
}
