use conway::{advance, command_for, handle_key_event, Command, Flow, Grid, Key};

fn grid(text: &str) -> Grid {
    match Grid::from_text(text) {
        Ok(g) => g,
        Err(e) => panic!("could not read grid: {:?}", e),
    }
}

#[test]
fn toggle_pause_twice_resumes() {
    let mut g = grid("010");
    assert!(!g.paused());
    g.toggle_pause();
    assert!(g.paused());
    g.toggle_pause();
    assert!(!g.paused());
}

#[test]
fn paused_grid_does_not_advance() {
    let mut g = grid("000\n111\n000");
    g.toggle_pause();
    for _ in 0..5 {
        assert!(!advance(&mut g));
        assert_eq!(g.to_text(), "000\n111\n000\n");
    }
    g.toggle_pause();
    assert!(advance(&mut g));
    assert_eq!(g.to_text(), "010\n010\n010\n");
}

#[test]
fn command_table() {
    assert_eq!(command_for(Key::Char('r'), false), Command::Restart);
    assert_eq!(command_for(Key::Char('R'), true), Command::Restart);
    assert_eq!(command_for(Key::Char('s'), true), Command::SaveToFile);
    assert_eq!(command_for(Key::Char('S'), true), Command::SaveToFile);
    assert_eq!(command_for(Key::Char('s'), false), Command::SaveSnapshot);
    assert_eq!(command_for(Key::Char('S'), false), Command::SaveSnapshot);
    assert_eq!(command_for(Key::Char('l'), false), Command::LoadSnapshot);
    assert_eq!(command_for(Key::Char('L'), true), Command::LoadSnapshot);
    assert_eq!(command_for(Key::Char('p'), false), Command::TogglePause);
    assert_eq!(command_for(Key::Char('P'), false), Command::TogglePause);
    assert_eq!(command_for(Key::Esc, false), Command::Quit);
    assert_eq!(command_for(Key::Char('q'), false), Command::Quit);
    assert_eq!(command_for(Key::Char('Q'), false), Command::Quit);
    assert_eq!(command_for(Key::Char('c'), true), Command::Quit);
    assert_eq!(command_for(Key::Char('C'), true), Command::Quit);
    assert_eq!(command_for(Key::Char('c'), false), Command::Ignore);
    assert_eq!(command_for(Key::Char('x'), false), Command::Ignore);
    assert_eq!(command_for(Key::Other, true), Command::Ignore);
}

#[test]
fn key_events_drive_grid() {
    let mut g = grid("000\n111\n000");
    assert_eq!(handle_key_event(Key::Char('s'), false, &mut g), Flow::Continue);
    g.update_grid();
    assert_eq!(handle_key_event(Key::Char('l'), false, &mut g), Flow::Continue);
    assert_eq!(g.to_text(), "000\n111\n000\n");
    assert_eq!(handle_key_event(Key::Char('p'), false, &mut g), Flow::Continue);
    assert!(g.paused());
    assert_eq!(handle_key_event(Key::Char('s'), true, &mut g), Flow::WriteFile);
    assert_eq!(g.to_text(), "000\n111\n000\n");
    assert_eq!(handle_key_event(Key::Char('z'), false, &mut g), Flow::Continue);
    assert_eq!(g.to_text(), "000\n111\n000\n");
    assert_eq!(handle_key_event(Key::Esc, false, &mut g), Flow::Quit);
    assert_eq!(handle_key_event(Key::Char('q'), false, &mut g), Flow::Quit);
    assert_eq!(handle_key_event(Key::Char('c'), true, &mut g), Flow::Quit);
}

#[test]
fn restart_key_keeps_dimensions() {
    let mut g = grid("0000\n0000");
    assert_eq!(handle_key_event(Key::Char('r'), false, &mut g), Flow::Continue);
    assert_eq!(g.rows(), 2);
    assert_eq!(g.cols(), 4);
    assert_eq!(g.to_text().len(), 10);
}
