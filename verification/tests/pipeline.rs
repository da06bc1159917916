use dungen::data::MapGrid;
use dungen::pipe::examples::{
    ExampleStep, ReverseEntireGridStep, SetEntireColumnStep, SetEntireRowStep, SetOutEdgeStep,
};
use dungen::pipe::runner::PipelineRunner;
use dungen::pipe::{GridChange, Pipeline, PipelineError};
use dungen::util::TriState;

#[test]
fn outer_edges_works() {
    let grid = MapGrid::empty((3, 3));
    assert_eq!(grid.to_strings().join("\n"), "...\n...\n...");

    let mut pipeline: Pipeline<ExampleStep> = Pipeline::new();
    pipeline.add_step(SetOutEdgeStep::new(TriState::True).into());

    let result = pipeline.run(&grid);
    assert!(result.is_ok());
    assert_eq!(
        result.expect("Pipeline returned error!").result.to_strings().join("\n"),
        "###\n#.#\n###"
    );
}

#[test]
fn reverse_grid_works() {
    let grid = MapGrid::empty((3, 3));
    assert_eq!(grid.to_strings().join("\n"), "...\n...\n...");

    let mut pipeline: Pipeline<ExampleStep> = Pipeline::new();
    pipeline.add_step(ReverseEntireGridStep.into());

    let result = pipeline.run(&grid);
    assert!(result.is_ok());
    assert_eq!(
        result.expect("Pipeline returned error!").result.to_strings().join("\n"),
        "###\n###\n###"
    );
}

#[test]
fn set_entire_row_works() {
    let grid = MapGrid::empty((3, 3));
    assert_eq!(grid.to_strings().join("\n"), "...\n...\n...");

    let mut pipeline: Pipeline<ExampleStep> = Pipeline::new();
    pipeline.add_step(SetEntireRowStep::new(1, TriState::True).into());

    let result = pipeline.run(&grid);
    assert!(result.is_ok());
    assert_eq!(
        result.expect("Pipeline returned error!").result.to_strings().join("\n"),
        "...\n###\n..."
    );
}

#[test]
fn set_entire_col_works() {
    let grid = MapGrid::empty((3, 3));
    assert_eq!(grid.to_strings().join("\n"), "...\n...\n...");

    let mut pipeline: Pipeline<ExampleStep> = Pipeline::new();
    pipeline.add_step(SetEntireColumnStep::new(1, TriState::True).into());

    let result = pipeline.run(&grid);
    assert!(result.is_ok());
    assert_eq!(
        result.expect("Pipeline returned error!").result.to_strings().join("\n"),
        ".#.\n.#.\n.#."
    );
}

#[test]
fn multi_set_row_col_works() {
    let grid = MapGrid::empty((5, 5));
    assert_eq!(grid.to_strings().join("\n"), ".....\n.....\n.....\n.....\n.....");

    let mut pipeline: Pipeline<ExampleStep> = Pipeline::new();
    pipeline.add_step(SetEntireColumnStep::new(1, TriState::True).into());
    pipeline.add_step(SetEntireColumnStep::new(3, TriState::True).into());
    pipeline.add_step(SetEntireRowStep::new(1, TriState::True).into());
    pipeline.add_step(SetEntireRowStep::new(3, TriState::True).into());

    let result = pipeline.run(&grid);
    assert!(result.is_ok());
    assert_eq!(
        result.expect("Pipeline returned error!").result.to_strings().join("\n"),
        ".#.#.\n#####\n.#.#.\n#####\n.#.#."
    );
}

#[test]
fn two_step_pipeline_works() {
    let grid = MapGrid::empty((3, 3));
    assert_eq!(grid.to_strings().join("\n"), "...\n...\n...");

    let mut pipeline: Pipeline<ExampleStep> = Pipeline::new();
    pipeline.add_step(SetOutEdgeStep::new(TriState::True).into());
    pipeline.add_step(ReverseEntireGridStep.into());

    let result = pipeline.run(&grid);
    assert!(result.is_ok());
    assert_eq!(
        result.expect("Pipeline returned error!").result.to_strings().join("\n"),
        "...\n.#.\n..."
    );

    let grid = MapGrid::empty((5, 5));
    assert_eq!(grid.to_strings().join("\n"), ".....\n.....\n.....\n.....\n.....");
    let result = pipeline.run(&grid);
    assert!(result.is_ok());
    assert_eq!(
        result.expect("Pipeline returned error!").result.to_strings().join("\n"),
        ".....\n.###.\n.###.\n.###.\n....."
    );
}

#[test]
fn empty_pipeline_reports_no_steps() {
    let grid = MapGrid::empty((3, 3));
    let mut pipeline: Pipeline<ExampleStep> = Pipeline::new();
    assert!(pipeline.is_empty());
    match pipeline.run(&grid) {
        Err(PipelineError::NoSteps) => {}
        _ => panic!("expected NoSteps"),
    }
    match PipelineRunner::<ExampleStep>::run(&grid) {
        Err(e) => assert_eq!(
            e.message(),
            "No steps were added to the pipeline before execution."
        ),
        Ok(_) => panic!("expected an error"),
    }
}

#[test]
fn changes_are_recorded_in_scan_order() {
    let grid = MapGrid::empty((3, 3));
    let mut pipeline: Pipeline<ExampleStep> = Pipeline::new();
    pipeline.add_step(SetEntireRowStep::new(2, TriState::True).into());
    let out = pipeline.run(&grid).expect("Pipeline returned error!");
    assert_eq!(out.changes.len(), 1);
    let data = out.changes[0].data();
    assert_eq!(data.len(), 3);
    for (k, c) in data.iter().enumerate() {
        assert_eq!(
            *c,
            GridChange { row: k, col: 2, prev_value: TriState::False, new_value: TriState::True }
        );
    }
}

#[test]
fn outer_edge_changes_swap_row_and_column_on_top_and_bottom() {
    let grid = MapGrid::empty((3, 3));
    let mut pipeline: Pipeline<ExampleStep> = Pipeline::new();
    pipeline.add_step(SetOutEdgeStep::new(TriState::True).into());
    let out = pipeline.run(&grid).expect("Pipeline returned error!");
    let data = out.changes[0].data();
    assert_eq!(data.len(), 8);
    // (1, 0) is on the top row only: it is recorded as row 0, column 1.
    assert_eq!((data[1].row, data[1].col), (0, 1));
    // (0, 1) is in the first column: it is recorded as row 0, column 1 as well.
    assert_eq!((data[3].row, data[3].col), (0, 1));
}

#[test]
fn error_messages() {
    assert_eq!(PipelineError::Unknown.message(), "Unknown error occurred during pipeline processing");
    assert_eq!(
        PipelineError::Other("boom".to_string()).message(),
        "Error occurred during pipeline execution: boom"
    );
}
