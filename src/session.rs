use vstd::prelude::*;
use crate::parser::{Commands, parse_spec};
use crate::shape::Shape;
use crate::window::{Window, DEFAULT_FILL, drawn, filled, replaced, resized, uniform};

verus! {

/// What the caller should show or do after a command was carried out.
#[derive(Debug, Clone, Copy, PartialEq, Eq, Structural)]
pub enum Outcome {
    /// Print the window.
    Show,
    /// End the session.
    Quit,
    /// Show the help text.
    Help,
    /// Clear the terminal.
    ClearScreen,
    /// Show the registered shapes.
    ListShapes,
    Filled(char),
    Replaced(char, char),
    Created(usize, usize),
    Resized(usize, usize),
    /// A shape was registered under this index.
    ShapeAdded(usize),
    /// The shape of this index was drawn.
    Drawn(usize),
    /// No shape is registered under this index; nothing changed.
    NoSuchShape(usize),
}

impl Commands {
    /// Sizes and magnitudes are positive, as the parser makes them.
    pub open spec fn valid(self) -> bool {
        match self {
            Commands::New(w, h) => w >= 1 && h >= 1,
            Commands::Resize(w, h) => w >= 1 && h >= 1,
            Commands::NewShape(s) => s.valid(),
            _ => true,
        }
    }

    pub fn is_valid(&self) -> (r: bool)
        ensures
            r == self.valid(),
    {
        match *self {
            Commands::New(w, h) => w >= 1 && h >= 1,
            Commands::Resize(w, h) => w >= 1 && h >= 1,
            Commands::NewShape(Shape::Circle(r)) => r >= 1,
            Commands::NewShape(Shape::Square(w, h)) => w >= 1 && h >= 1,
            _ => true,
        }
    }
}

/// Every command that the parser produces is valid.
pub proof fn lemma_parsed_valid(s: Seq<char>)
    ensures
        parse_spec(s) is Ok ==> parse_spec(s)->Ok_0.valid(),
{
}

/// A window being edited, with the shapes registered so far.
pub struct Session {
    window: Window,
    shapes: Vec<Shape>,
}

impl Session {
    pub closed spec fn win(&self) -> Window {
        self.window
    }

    pub closed spec fn shape_list(&self) -> Seq<Shape> {
        self.shapes@
    }

    pub open spec fn wf(&self) -> bool {
        &&& self.win().wf()
        &&& forall|i: int| 0 <= i < self.shape_list().len() ==> (#[trigger] self.shape_list()[i]).valid()
    }

    /// `after` and `r` are what carrying out `cmd` on `before` gives.
    pub open spec fn step(before: Session, cmd: Commands, after: Session, r: Outcome) -> bool {
        let (bw, aw) = (before.win(), after.win());
        let same_window = aw == bw;
        let same_shapes = after.shape_list() == before.shape_list();
        match cmd {
            Commands::Print => r == Outcome::Show && same_window && same_shapes,
            Commands::Quit => r == Outcome::Quit && same_window && same_shapes,
            Commands::Help => r == Outcome::Help && same_window && same_shapes,
            Commands::Clear => r == Outcome::ClearScreen && same_window && same_shapes,
            Commands::List => r == Outcome::ListShapes && same_window && same_shapes,
            Commands::Fill(c) => {
                &&& r == Outcome::Filled(c)
                &&& aw.w() == bw.w() && aw.h() == bw.h()
                &&& aw.cells() == filled(bw.cells(), c)
                &&& same_shapes
            },
            Commands::Replace(a, b) => {
                &&& r == Outcome::Replaced(a, b)
                &&& aw.w() == bw.w() && aw.h() == bw.h()
                &&& aw.cells() == replaced(bw.cells(), a, b)
                &&& same_shapes
            },
            Commands::New(w, h) => {
                &&& r == Outcome::Created(w as usize, h as usize)
                &&& aw.w() == w && aw.h() == h
                &&& aw.cells() == uniform(w as nat, h as nat, DEFAULT_FILL)
                &&& same_shapes
            },
            Commands::Resize(w, h) => {
                &&& r == Outcome::Resized(w as usize, h as usize)
                &&& aw.w() == w && aw.h() == h
                &&& aw.cells() == resized(bw.cells(), w as nat, h as nat)
                &&& same_shapes
            },
            Commands::NewShape(s) => {
                &&& r == Outcome::ShapeAdded(before.shape_list().len() as usize)
                &&& same_window
                &&& after.shape_list() == before.shape_list().push(s)
            },
            Commands::Draw(i, origin, glyph) => if i < before.shape_list().len() {
                &&& r == Outcome::Drawn(i)
                &&& aw.w() == bw.w() && aw.h() == bw.h()
                &&& aw.cells() == drawn(bw.cells(), origin, before.shape_list()[i as int], glyph)
                &&& same_shapes
            } else {
                r == Outcome::NoSuchShape(i) && same_window && same_shapes
            },
        }
    }

    /// A session on a fresh `width` by `height` window, with no shapes.
    pub fn new(width: usize, height: usize) -> (r: Session)
        ensures
            r.wf(),
            r.win().w() == width,
            r.win().h() == height,
            r.win().cells() == uniform(width as nat, height as nat, DEFAULT_FILL),
            r.shape_list().len() == 0,
    {
        Session { window: Window::new(width, height), shapes: Vec::new() }
    }

    pub fn window(&self) -> (r: &Window)
        ensures
            *r == self.win(),
    {
        &self.window
    }

    pub fn shapes(&self) -> (r: &Vec<Shape>)
        ensures
            r@ == self.shape_list(),
    {
        &self.shapes
    }

    /// Carries out one command.
    pub fn execute(&mut self, cmd: Commands) -> (r: Outcome)
        requires
            old(self).wf(),
            cmd.valid(),
        ensures
            final(self).wf(),
            Session::step(*old(self), cmd, *final(self), r),
    {
        match cmd {
            Commands::Print => Outcome::Show,
            Commands::Quit => Outcome::Quit,
            Commands::Help => Outcome::Help,
            Commands::Clear => Outcome::ClearScreen,
            Commands::List => Outcome::ListShapes,
            Commands::Fill(c) => {
                self.window.fill(c);
                assert(self.win().wf());
                assert(self.shape_list() == old(self).shape_list());
                Outcome::Filled(c)
            },
            Commands::Replace(a, b) => {
                self.window.replace(a, b);
                assert(self.win().wf());
                assert(self.shape_list() == old(self).shape_list());
                Outcome::Replaced(a, b)
            },
            Commands::New(w, h) => {
                self.window = Window::new(w as usize, h as usize);
                assert(self.win().wf());
                assert(self.shape_list() == old(self).shape_list());
                Outcome::Created(w as usize, h as usize)
            },
            Commands::Resize(w, h) => {
                self.window.resize(w as usize, h as usize);
                assert(self.win().wf());
                assert(self.shape_list() == old(self).shape_list());
                Outcome::Resized(w as usize, h as usize)
            },
            Commands::NewShape(s) => {
                let index = self.shapes.len();
                self.shapes.push(s);
                assert forall|i: int| 0 <= i < self.shape_list().len() implies (#[trigger] self.shape_list()[i]).valid() by {
                    if i < index {
                        assert(self.shape_list()[i] == old(self).shape_list()[i]);
                    }
                }
                Outcome::ShapeAdded(index)
            },
            Commands::Draw(i, origin, glyph) => {
                if i < self.shapes.len() {
                    let shape = self.shapes[i];
                    self.window.draw(origin, shape, glyph);
                    assert(self.win().wf());
                    assert(self.shape_list() == old(self).shape_list());
                    Outcome::Drawn(i)
                } else {
                    Outcome::NoSuchShape(i)
                }
            },
        }
    }
}

} // verus!
