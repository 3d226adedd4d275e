use sand::controls::{Controls, Input, Verdict};
use sand::dot::Dot;
use sand::sandbox::Sandbox;
use std::time::Duration;

fn dt() -> Duration {
    Duration::from_millis(16)
}

fn idle() -> Input {
    Input { quit: false, pause: false, paint: false, cycle: false, cell: (0, 0), last_cell: (0, 0) }
}

fn count_of(sandbox: &Sandbox, dot: Dot) -> usize {
    let mut n = 0;
    for y in 0..sandbox.height() {
        for x in 0..sandbox.width() {
            if sandbox.get((x, y)) == dot {
                n += 1;
            }
        }
    }
    n
}

#[test]
fn controls_start_with_sand_and_running() {
    let controls = Controls::new();
    assert_eq!(controls.brush, Dot::Sand { temp: 0 });
    assert!(!controls.paused);
}

#[test]
fn quit_changes_nothing() {
    let mut sandbox = Sandbox::new(3, 3);
    sandbox.set((1, 0), Dot::Sand { temp: 0 });
    let mut controls = Controls::new();
    let input = Input { quit: true, pause: true, paint: true, cycle: true, cell: (2, 2), last_cell: (0, 0) };
    assert_eq!(controls.frame(&mut sandbox, &input, &dt()), Verdict::Quit);
    assert!(!controls.paused);
    assert_eq!(controls.brush, Dot::Sand { temp: 0 });
    assert_eq!(sandbox.get((1, 0)), Dot::Sand { temp: 0 });
    assert_eq!(count_of(&sandbox, Dot::Sand { temp: 0 }), 1);
}

#[test]
fn an_idle_frame_steps_the_sandbox() {
    let mut sandbox = Sandbox::new(3, 3);
    sandbox.set((1, 0), Dot::Sand { temp: 0 });
    let mut controls = Controls::new();
    assert_eq!(controls.frame(&mut sandbox, &idle(), &dt()), Verdict::Redraw);
    assert_eq!(sandbox.get((1, 1)), Dot::Sand { temp: 0 });
    assert_eq!(sandbox.get((1, 0)), Dot::Empty { temp: 0 });
}

#[test]
fn pause_stops_the_stepping_and_a_second_press_resumes() {
    let mut sandbox = Sandbox::new(3, 4);
    sandbox.set((1, 0), Dot::Sand { temp: 0 });
    let mut controls = Controls::new();
    let press = Input { pause: true, ..idle() };
    assert_eq!(controls.frame(&mut sandbox, &press, &dt()), Verdict::Redraw);
    assert!(controls.paused);
    assert_eq!(sandbox.get((1, 0)), Dot::Sand { temp: 0 });
    assert_eq!(controls.frame(&mut sandbox, &idle(), &dt()), Verdict::Redraw);
    assert_eq!(sandbox.get((1, 0)), Dot::Sand { temp: 0 });
    assert_eq!(controls.frame(&mut sandbox, &press, &dt()), Verdict::Redraw);
    assert!(!controls.paused);
    assert_eq!(sandbox.get((1, 1)), Dot::Sand { temp: 0 });
}

#[test]
fn cycle_moves_the_brush_round() {
    let mut sandbox = Sandbox::new(2, 2);
    let mut controls = Controls::new();
    let press = Input { cycle: true, ..idle() };
    let want = [
        Dot::Dirt { temp: 0 },
        Dot::Water { temp: 0, salinity: 0 },
        Dot::Salt { temp: 0 },
        Dot::Iron { temp: 0 },
        Dot::Empty { temp: 0 },
        Dot::Sand { temp: 0 },
    ];
    for dot in want {
        assert_eq!(controls.frame(&mut sandbox, &press, &dt()), Verdict::Redraw);
        assert_eq!(controls.brush, dot);
    }
}

#[test]
fn painting_wins_over_cycling() {
    let mut sandbox = Sandbox::new(2, 2);
    let mut controls = Controls { brush: Dot::Iron { temp: 0 }, paused: true };
    let input = Input { paint: true, cycle: true, cell: (1, 1), last_cell: (1, 1), ..idle() };
    assert_eq!(controls.frame(&mut sandbox, &input, &dt()), Verdict::Redraw);
    assert_eq!(controls.brush, Dot::Iron { temp: 0 });
    assert_eq!(sandbox.get((1, 1)), Dot::Iron { temp: 0 });
    assert_eq!(count_of(&sandbox, Dot::Iron { temp: 0 }), 1);
}

#[test]
fn a_stroke_paints_the_line_from_the_last_cell() {
    let mut sandbox = Sandbox::new(5, 3);
    let mut controls = Controls { brush: Dot::Iron { temp: 0 }, paused: true };
    let input = Input { paint: true, cell: (4, 1), last_cell: (0, 1), ..idle() };
    assert_eq!(controls.frame(&mut sandbox, &input, &dt()), Verdict::Redraw);
    for x in 0..5 {
        assert_eq!(sandbox.get((x, 1)), Dot::Iron { temp: 0 });
    }
    assert_eq!(count_of(&sandbox, Dot::Iron { temp: 0 }), 5);
}

#[test]
fn a_stroke_starts_inside_the_clamped_range() {
    let mut sandbox = Sandbox::new(4, 4);
    let mut controls = Controls { brush: Dot::Iron { temp: 0 }, paused: true };
    let input = Input { paint: true, cell: (3, 0), last_cell: (-9, -2), ..idle() };
    assert_eq!(controls.frame(&mut sandbox, &input, &dt()), Verdict::Redraw);
    for x in 0..4 {
        assert_eq!(sandbox.get((x, 0)), Dot::Iron { temp: 0 });
    }
    assert_eq!(count_of(&sandbox, Dot::Iron { temp: 0 }), 4);
}

#[test]
fn a_stroke_that_leaves_the_grid_is_reported() {
    let mut sandbox = Sandbox::new(4, 4);
    sandbox.set((0, 0), Dot::Sand { temp: 0 });
    let mut controls = Controls::new();
    // the last cell is clamped to the width itself, one column too far
    let input = Input { paint: true, pause: true, cell: (0, 3), last_cell: (40, 3), ..idle() };
    assert_eq!(controls.frame(&mut sandbox, &input, &dt()), Verdict::OffGrid);
    assert!(controls.paused);
    assert_eq!(sandbox.get((0, 0)), Dot::Sand { temp: 0 });
    assert_eq!(count_of(&sandbox, Dot::Sand { temp: 0 }), 1);
    let input = Input { paint: true, cell: (0, 4), last_cell: (0, 0), ..idle() };
    assert_eq!(controls.frame(&mut sandbox, &input, &dt()), Verdict::OffGrid);
    assert_eq!(count_of(&sandbox, Dot::Sand { temp: 0 }), 1);
}

#[test]
fn a_painted_frame_is_stepped_too() {
    let mut sandbox = Sandbox::new(3, 3);
    let mut controls = Controls::new();
    let input = Input { paint: true, cell: (1, 0), last_cell: (1, 0), ..idle() };
    assert_eq!(controls.frame(&mut sandbox, &input, &dt()), Verdict::Redraw);
    assert_eq!(sandbox.get((1, 0)), Dot::Empty { temp: 0 });
    assert_eq!(sandbox.get((1, 1)), Dot::Sand { temp: 0 });
}
