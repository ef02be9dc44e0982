use char_grid::{parse_to_command, Commands, Outcome, Point, Session, Shape};

#[test]
fn session_registers_and_draws_shapes() {
    let mut s = Session::new(3, 2);
    assert_eq!(s.execute(Commands::NewShape(Shape::Square(2, 1))), Outcome::ShapeAdded(0));
    assert_eq!(s.execute(Commands::NewShape(Shape::Circle(1))), Outcome::ShapeAdded(1));
    assert_eq!(s.shapes().len(), 2);
    assert_eq!(s.execute(Commands::Draw(0, Point::new(1, 1), '#')), Outcome::Drawn(0));
    assert_eq!(s.window().render(), "   \n ##");
    assert_eq!(s.execute(Commands::Draw(5, Point::new(0, 0), '#')), Outcome::NoSuchShape(5));
    assert_eq!(s.window().render(), "   \n ##");
}

#[test]
fn session_window_commands() {
    let mut s = Session::new(2, 2);
    assert_eq!(s.execute(Commands::Fill('.')), Outcome::Filled('.'));
    assert_eq!(s.execute(Commands::Replace('.', 'o')), Outcome::Replaced('.', 'o'));
    assert_eq!(s.window().render(), "oo\noo");
    assert_eq!(s.execute(Commands::Resize(3, 1)), Outcome::Resized(3, 1));
    assert_eq!(s.window().render(), "oo ");
    assert_eq!(s.execute(Commands::New(1, 2)), Outcome::Created(1, 2));
    assert_eq!(s.window().render(), " \n ");
    assert_eq!(s.execute(Commands::Print), Outcome::Show);
    assert_eq!(s.execute(Commands::Quit), Outcome::Quit);
}

#[test]
fn parsed_commands_run() {
    let mut s = Session::new(4, 3);
    for line in ["fill .", "new shape circle 1", "draw 0 0 0 #", "resize 3 2"] {
        let cmd = parse_to_command(line.to_string()).unwrap();
        assert!(cmd.is_valid());
        s.execute(cmd);
    }
    assert_eq!(s.window().render(), "##.\n#..");
}

#[test]
fn command_validity() {
    assert!(!Commands::New(0, 3).is_valid());
    assert!(!Commands::NewShape(Shape::Circle(-1)).is_valid());
    assert!(Commands::Fill('x').is_valid());
}
