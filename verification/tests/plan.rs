use sdmorph::plan::DenoisingSteps;
use sdmorph::plan::MorphPreset;
use sdmorph::plan::RestartIndex;
use sdmorph::plan::TransitionBatch;
use sdmorph::plan::batch_last_output_path;
use sdmorph::plan::plan_morph;
use sdmorph::prompts::PromptChunks;

fn preset(chunks: &[&str], init: u32, end: u32, steps: u32, seed: Option<u32>) -> MorphPreset {
    MorphPreset {
        prompt_chunks: PromptChunks {
            chunks: chunks.iter().map(|c| c.to_string()).collect(),
        },
        denoising_steps: DenoisingSteps { init, end, steps },
        seed,
    }
}

#[test]
fn test_single_strength_step_when_init_equals_end() {
    // an inclusive sweep from 0.300 to 0.300 runs exactly once
    let presets = vec![preset(&["a"], 300, 300, 100, Some(1))];
    let plan = plan_morph(&presets, &String::from("img.png"), &None);
    assert_eq!(plan.len(), 1);
    assert_eq!(plan[0].steps.len(), 1);
    assert_eq!(plan[0].steps[0].strength, 300);
}

#[test]
fn test_zero_strength_steps_when_init_above_end() {
    // 0.500 down to 0.400 is an empty sweep: the batch carries no step and
    // leaves the source image untouched
    let presets = vec![preset(&["a"], 500, 400, 100, Some(1))];
    let plan = plan_morph(&presets, &String::from("img.png"), &None);
    assert_eq!(plan.len(), 1);
    assert_eq!(plan[0].steps.len(), 0);
    let prev = String::from("img.png");
    assert_eq!(batch_last_output_path(&plan[0], &prev), "img.png");
}

#[test]
fn test_strength_sweep_values() {
    let presets = vec![preset(&["a"], 100, 400, 150, Some(1))];
    let plan = plan_morph(&presets, &String::from("img.png"), &None);
    let strengths: Vec<u32> = plan[0].steps.iter().map(|s| s.strength).collect();
    assert_eq!(strengths, vec![100, 250, 400]);
    let indices: Vec<usize> = plan[0].steps.iter().map(|s| s.strength_index).collect();
    assert_eq!(indices, vec![0, 1, 2]);
}

#[test]
fn test_first_preset_single_transition() {
    // a fresh run introduces the whole prompt set in one transition step
    let presets = vec![preset(&["a", "b"], 200, 200, 100, Some(7))];
    let plan = plan_morph(&presets, &String::from("img.png"), &None);
    assert_eq!(plan.len(), 1);
    let batch = &plan[0];
    assert_eq!(batch.preset_index, 0);
    assert_eq!(batch.transition_index, 0);
    assert_eq!(batch.prompt, "a,b");
    assert_eq!(batch.seed, 7);
    assert_eq!(batch.steps.len(), 1);
    assert_eq!(batch.steps[0].strength, 200);
    assert_eq!(batch.steps[0].output_path, "img_0_0_0.png");
    assert!(!batch.steps[0].skip);
}

#[test]
fn test_second_preset_swaps_chunks_in_one_transition() {
    // ["a","b"] -> ["b","c"]: common ["b"], one in, one out, so max(1,1) = 1
    // transition where "c" is already in and "a" already gone
    let presets = vec![
        preset(&["a", "b"], 200, 200, 100, Some(1)),
        preset(&["b", "c"], 200, 200, 100, Some(2)),
    ];
    let plan = plan_morph(&presets, &String::from("img.png"), &None);
    assert_eq!(plan.len(), 2);
    assert_eq!(plan[1].preset_index, 1);
    assert_eq!(plan[1].transition_index, 0);
    assert_eq!(plan[1].prompt, "b,c");
}

#[test]
fn test_transition_count_is_max_of_faded_chunks() {
    // ["a","b","c"] -> ["d"]: three out, one in, so three transitions, and
    // the outgoing chunks disappear one per transition
    let presets = vec![
        preset(&["a", "b", "c"], 200, 200, 100, Some(1)),
        preset(&["d"], 200, 200, 100, Some(2)),
    ];
    let plan = plan_morph(&presets, &String::from("img.png"), &None);
    assert_eq!(plan.len(), 1 + 3);
    assert_eq!(plan[1].prompt, "d,b,c");
    assert_eq!(plan[2].prompt, "d,c");
    assert_eq!(plan[3].prompt, "d");
}

#[test]
fn test_identical_preset_rerenders_once() {
    // a preset identical to its predecessor still runs one transition step
    // with the unchanged prompt (a re-render at the new strengths)
    let presets = vec![
        preset(&["a", "b"], 200, 200, 100, Some(1)),
        preset(&["a", "b"], 300, 400, 100, Some(2)),
    ];
    let plan = plan_morph(&presets, &String::from("img.png"), &None);
    assert_eq!(plan.len(), 2);
    assert_eq!(plan[1].prompt, "a,b");
    assert_eq!(plan[1].steps.len(), 2);
}

#[test]
fn test_output_paths_unique_across_run() {
    let presets = vec![
        preset(&["a", "b"], 100, 300, 100, Some(1)),
        preset(&["b", "c", "d"], 200, 400, 100, Some(2)),
    ];
    let plan = plan_morph(&presets, &String::from("img.png"), &None);
    let mut paths: Vec<String> = Vec::new();
    for batch in &plan {
        for step in &batch.steps {
            paths.push(step.output_path.clone());
        }
    }
    assert!(paths.len() > 1);
    for i in 0..paths.len() {
        for j in 0..paths.len() {
            if i != j {
                assert_ne!(paths[i], paths[j]);
            }
        }
    }
}

#[test]
fn test_resume_cursor_boundary() {
    // everything strictly before the cursor is skipped; the cursor's own
    // step is the first that executes
    let presets = vec![preset(&["a"], 100, 300, 100, Some(1))];
    let cursor = Some(RestartIndex {
        preset: 0,
        chunk_transition: 0,
        strength: 1,
    });
    let plan = plan_morph(&presets, &String::from("img.png"), &cursor);
    let skips: Vec<bool> = plan[0].steps.iter().map(|s| s.skip).collect();
    assert_eq!(skips, vec![true, false, false]);
}

#[test]
fn test_resume_cursor_skips_whole_earlier_preset() {
    let presets = vec![
        preset(&["a"], 100, 200, 100, Some(1)),
        preset(&["b"], 100, 200, 100, Some(2)),
    ];
    let cursor = Some(RestartIndex {
        preset: 1,
        chunk_transition: 0,
        strength: 0,
    });
    let plan = plan_morph(&presets, &String::from("img.png"), &cursor);
    let flat: Vec<(usize, bool)> = plan
        .iter()
        .flat_map(|b: &TransitionBatch| b.steps.iter().map(|s| (b.preset_index, s.skip)))
        .collect();
    assert_eq!(
        flat,
        vec![(0, true), (0, true), (1, false), (1, false)]
    );
}

#[test]
fn test_last_output_path_threads_forward() {
    let presets = vec![preset(&["a"], 100, 300, 100, Some(1))];
    let plan = plan_morph(&presets, &String::from("img.png"), &None);
    let prev = String::from("img.png");
    assert_eq!(
        batch_last_output_path(&plan[0], &prev),
        "img_0_0_2.png"
    );
}

#[test]
fn test_seed_drawn_when_absent() {
    // with no preset seed a fresh one is drawn once per transition step and
    // shared by the whole sweep; the plan must still come out whole
    let presets = vec![preset(&["a", "b"], 100, 200, 100, None)];
    let plan = plan_morph(&presets, &String::from("img.png"), &None);
    assert_eq!(plan.len(), 1);
    assert_eq!(plan[0].steps.len(), 2);
}
