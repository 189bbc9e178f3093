use game_of_life::board::Board;
use game_of_life::sim::KeyInput;
use game_of_life::sim::Playback;
use game_of_life::sim::Status;

fn blinker_board() -> Board {
    let mut b = Board::new(7, 7).unwrap();
    for j in 2..5 {
        b.set_cell(3, j, true).unwrap();
    }
    b
}

fn cells(b: &Board) -> Vec<(usize, usize)> {
    let mut out = Vec::new();
    for i in 0..b.height() {
        for j in 0..b.width() {
            if b.cell(i, j).unwrap() {
                out.push((i, j));
            }
        }
    }
    out
}

#[test]
fn playback_starts_running() {
    let p = Playback::new(500);
    assert!(p.is_running());
    assert!(!p.is_stopped());
    assert_eq!(p.current_delay(), 500);
}

#[test]
fn quit_keys_stop_from_any_state() {
    let mut p = Playback::new(500);
    p.on_key(KeyInput::Escape);
    assert!(p.is_stopped());

    let mut p = Playback::new(500);
    p.on_key(KeyInput::Character(' '));
    p.on_key(KeyInput::Character('q'));
    assert!(p.is_stopped());
}

#[test]
fn unrecognized_keys_are_ignored() {
    let mut p = Playback::new(500);
    p.on_key(KeyInput::Character('x'));
    p.on_key(KeyInput::Other);
    assert!(p.is_running());
    assert_eq!(p.current_delay(), 500);
}

#[test]
fn speed_keys_move_delay_in_expected_direction() {
    let mut p = Playback::new(500);
    p.on_key(KeyInput::Left);
    assert_eq!(p.current_delay(), 625, "speed-down multiplies the delay by 5/4");
    p.on_key(KeyInput::Right);
    assert_eq!(p.current_delay(), 468, "speed-up multiplies the delay by 3/4");
    assert!(p.is_running(), "speed keys never change the status");
}

#[test]
fn repeated_speed_up_never_reaches_zero() {
    let mut p = Playback::new(500);
    for _ in 0..200 {
        p.on_key(KeyInput::Right);
        assert!(p.current_delay() >= 1);
    }
    assert_eq!(p.current_delay(), 1);
}

#[test]
fn space_toggles_pause_and_back() {
    let mut p = Playback::new(500);
    p.on_key(KeyInput::Character(' '));
    assert!(!p.is_running());
    assert!(!p.is_stopped());
    p.on_key(KeyInput::Character(' '));
    assert!(p.is_running());
}

#[test]
fn pause_suppresses_advance() {
    let mut p = Playback::new(500);
    let mut b = blinker_board();
    let before = cells(&b);
    p.on_key(KeyInput::Character(' '));
    for _ in 0..5 {
        let rendered = p.tick(&mut b);
        assert!(rendered.is_none(), "a paused tick renders nothing");
    }
    assert_eq!(cells(&b), before, "paused timer expiries leave the grid unchanged");

    // Toggling back: the next expiry advances exactly once.
    p.on_key(KeyInput::Character(' '));
    let rendered = p.tick(&mut b);
    assert!(rendered.is_some());
    let mut once = blinker_board();
    once.next();
    assert_eq!(cells(&b), cells(&once));
}

#[test]
fn tick_renders_the_grid_before_advancing() {
    let mut p = Playback::new(500);
    let mut b = blinker_board();
    let before = blinker_board();
    let rendered = p.tick(&mut b).unwrap();
    assert_eq!(rendered, before.lines(), "the frame shows the pre-advance grid");
    assert!(p.is_running());
}

#[test]
fn fixed_point_stops_the_loop() {
    let mut p = Playback::new(500);
    let mut b = Board::new(4, 4).unwrap();
    let rendered = p.tick(&mut b);
    assert!(rendered.is_some(), "a running tick still renders the final frame");
    assert!(p.is_stopped(), "an unchanged generation stops the simulation");
    assert_eq!(p.current_delay(), 500, "the tick never touches the delay");
}
