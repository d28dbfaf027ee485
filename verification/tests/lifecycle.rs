use state_stack::{State, StateFinished, States};
use std::cell::RefCell;
use std::rc::Rc;

/// What the probes below write down, in the order in which it happened.
type Journal = Rc<RefCell<Vec<String>>>;

/// The handle that the probes read from and render to.
struct Screen {
    ticks: u32,
    frames: Vec<String>,
}

impl Screen {
    fn new() -> Screen {
        Screen { ticks: 0, frames: Vec::new() }
    }
}

/// A state that writes every hook call into a shared journal.
struct Probe {
    name: &'static str,
    journal: Journal,
    on_start: StateFinished,
    on_update: StateFinished,
}

impl Probe {
    fn new(name: &'static str, journal: &Journal) -> Probe {
        Probe {
            name,
            journal: Rc::clone(journal),
            on_start: StateFinished::No,
            on_update: StateFinished::No,
        }
    }

    fn answering(
        name: &'static str,
        journal: &Journal,
        on_start: StateFinished,
        on_update: StateFinished,
    ) -> Probe {
        Probe { name, journal: Rc::clone(journal), on_start, on_update }
    }

    fn note(&self, hook: &str) {
        self.journal.borrow_mut().push(format!("{}.{}", self.name, hook));
    }
}

impl State for Probe {
    type Io = Screen;

    fn name(&self) -> &str {
        self.name
    }

    fn on_pushed(&mut self) -> StateFinished {
        self.note("on_pushed");
        StateFinished::No
    }

    fn on_start(&mut self) -> StateFinished {
        self.note("on_start");
        self.on_start
    }

    fn draw(&mut self, renderer: &mut Screen) {
        self.note("draw");
        renderer.frames.push(self.name.to_string());
    }

    fn update(&mut self, input: &mut Screen) -> StateFinished {
        self.note("update");
        input.ticks += 1;
        self.on_update
    }

    fn on_popped(&mut self) {
        self.note("on_popped");
    }
}

fn journal() -> Journal {
    Rc::new(RefCell::new(Vec::new()))
}

fn written(journal: &Journal) -> Vec<String> {
    journal.borrow().clone()
}

fn lines(expected: &[&str]) -> Vec<String> {
    expected.iter().map(|line| line.to_string()).collect()
}

#[test]
fn new_stack_is_empty() {
    let states: States<Probe> = States::new();
    assert!(states.is_empty());
}

#[test]
fn push_makes_the_stack_non_empty() {
    let log = journal();
    let mut states = States::new();
    states.push(Probe::new("menu", &log));
    assert!(!states.is_empty());
}

#[test]
fn push_calls_on_pushed_and_not_on_start() {
    let log = journal();
    let mut states = States::new();
    states.push(Probe::new("menu", &log));
    assert_eq!(written(&log), lines(&["menu.on_pushed"]));
}

#[test]
fn is_empty_follows_pushes_less_pops() {
    let log = journal();
    let mut states = States::new();
    // push, push, pop, pop, pop (nothing to pop), push, pop
    states.push(Probe::new("a", &log));
    assert!(!states.is_empty());
    states.push(Probe::new("b", &log));
    assert!(!states.is_empty());
    states.pop();
    assert!(!states.is_empty());
    states.pop();
    assert!(states.is_empty());
    states.pop();
    assert!(states.is_empty());
    states.push(Probe::new("c", &log));
    assert!(!states.is_empty());
    states.pop();
    assert!(states.is_empty());
    assert_eq!(
        written(&log),
        lines(&[
            "a.on_pushed",
            "b.on_pushed",
            "b.on_popped",
            "a.on_popped",
            "c.on_pushed",
            "c.on_popped",
        ])
    );
}

#[test]
fn push_then_pop_calls_on_pushed_then_on_popped_only() {
    let log = journal();
    let mut states = States::new();
    states.push(Probe::new("menu", &log));
    states.pop();
    assert!(states.is_empty());
    assert_eq!(written(&log), lines(&["menu.on_pushed", "menu.on_popped"]));
}

#[test]
fn start_twice_calls_on_start_once() {
    let log = journal();
    let mut states = States::new();
    states.push(Probe::answering("menu", &log, StateFinished::Yes, StateFinished::No));
    assert_eq!(states.start(), StateFinished::Yes);
    assert_eq!(states.start(), StateFinished::No);
    assert_eq!(written(&log), lines(&["menu.on_pushed", "menu.on_start"]));
}

#[test]
fn start_hands_back_what_on_start_answered() {
    let log = journal();
    let mut states = States::new();
    states.push(Probe::answering("quiet", &log, StateFinished::No, StateFinished::No));
    assert_eq!(states.start(), StateFinished::No);
    states.push(Probe::answering("eager", &log, StateFinished::Yes, StateFinished::No));
    assert_eq!(states.start(), StateFinished::Yes);
    assert_eq!(
        written(&log),
        lines(&["quiet.on_pushed", "quiet.on_start", "eager.on_pushed", "eager.on_start"])
    );
}

#[test]
fn pop_of_empty_stack_does_nothing() {
    let mut states: States<Probe> = States::new();
    states.pop();
    assert!(states.is_empty());
    states.pop();
    assert!(states.is_empty());
}

#[test]
fn pop_of_emptied_stack_calls_no_hook() {
    let log = journal();
    let mut states = States::new();
    states.push(Probe::new("menu", &log));
    states.pop();
    states.pop();
    assert!(states.is_empty());
    assert_eq!(written(&log), lines(&["menu.on_pushed", "menu.on_popped"]));
}

#[test]
fn push_push_pop_leaves_the_first_state_on_top() {
    let log = journal();
    let mut screen = Screen::new();
    let mut states = States::new();
    states.push(Probe::new("a", &log));
    states.push(Probe::new("b", &log));
    states.pop();
    assert!(!states.is_empty());
    assert_eq!(written(&log), lines(&["a.on_pushed", "b.on_pushed", "b.on_popped"]));
    states.draw(&mut screen);
    assert_eq!(screen.frames, lines(&["a"]));
}

#[test]
fn pop_does_not_start_the_state_beneath() {
    let log = journal();
    let mut states = States::new();
    states.push(Probe::answering("a", &log, StateFinished::Yes, StateFinished::No));
    states.push(Probe::new("b", &log));
    assert_eq!(states.start(), StateFinished::No);
    states.pop();
    assert_eq!(
        written(&log),
        lines(&["a.on_pushed", "b.on_pushed", "b.on_start", "b.on_popped"])
    );
    // The state beneath was never started, so the next start reaches it.
    assert_eq!(states.start(), StateFinished::Yes);
    assert_eq!(states.start(), StateFinished::No);
    assert_eq!(
        written(&log),
        lines(&["a.on_pushed", "b.on_pushed", "b.on_start", "b.on_popped", "a.on_start"])
    );
}

#[test]
fn update_reaches_the_top_state_and_hands_back_its_answer() {
    let log = journal();
    let mut screen = Screen::new();
    let mut states = States::new();
    states.push(Probe::answering("a", &log, StateFinished::No, StateFinished::No));
    states.push(Probe::answering("b", &log, StateFinished::No, StateFinished::Yes));
    assert_eq!(states.update(&mut screen), StateFinished::Yes);
    assert_eq!(screen.ticks, 1);
    states.pop();
    assert_eq!(states.update(&mut screen), StateFinished::No);
    assert_eq!(states.update(&mut screen), StateFinished::No);
    assert_eq!(screen.ticks, 3);
    assert_eq!(
        written(&log),
        lines(&["a.on_pushed", "b.on_pushed", "b.update", "b.on_popped", "a.update", "a.update"])
    );
}

#[test]
fn update_does_not_start_the_state() {
    let log = journal();
    let mut screen = Screen::new();
    let mut states = States::new();
    states.push(Probe::answering("a", &log, StateFinished::Yes, StateFinished::No));
    states.update(&mut screen);
    states.draw(&mut screen);
    assert_eq!(states.start(), StateFinished::Yes);
    assert_eq!(written(&log), lines(&["a.on_pushed", "a.update", "a.draw", "a.on_start"]));
}

#[test]
fn draw_renders_the_top_state_only() {
    let log = journal();
    let mut screen = Screen::new();
    let mut states = States::new();
    states.push(Probe::new("a", &log));
    states.push(Probe::new("b", &log));
    states.draw(&mut screen);
    states.draw(&mut screen);
    assert_eq!(screen.frames, lines(&["b", "b"]));
    assert_eq!(screen.ticks, 0);
    assert_eq!(written(&log), lines(&["a.on_pushed", "b.on_pushed", "b.draw", "b.draw"]));
}

#[test]
fn state_popped_before_start_is_never_started() {
    let log = journal();
    let mut states = States::new();
    states.push(Probe::new("a", &log));
    states.push(Probe::new("b", &log));
    states.pop();
    states.pop();
    assert!(states.is_empty());
    assert_eq!(
        written(&log),
        lines(&["a.on_pushed", "b.on_pushed", "b.on_popped", "a.on_popped"])
    );
}

#[test]
fn menu_then_game_then_back_to_menu() {
    let log = journal();
    let mut screen = Screen::new();
    let mut states = States::new();

    states.push(Probe::answering("menu", &log, StateFinished::Yes, StateFinished::No));
    assert_eq!(states.start(), StateFinished::Yes);
    assert_eq!(states.update(&mut screen), StateFinished::No);
    assert_eq!(states.update(&mut screen), StateFinished::No);

    states.push(Probe::answering("game", &log, StateFinished::No, StateFinished::Yes));
    assert_eq!(states.start(), StateFinished::No);
    assert_eq!(states.update(&mut screen), StateFinished::Yes);
    states.draw(&mut screen);

    states.pop();
    assert_eq!(states.start(), StateFinished::No);
    states.draw(&mut screen);

    assert_eq!(screen.ticks, 3);
    assert_eq!(screen.frames, lines(&["game", "menu"]));
    assert_eq!(
        written(&log),
        lines(&[
            "menu.on_pushed",
            "menu.on_start",
            "menu.update",
            "menu.update",
            "game.on_pushed",
            "game.on_start",
            "game.update",
            "game.draw",
            "game.on_popped",
            "menu.draw",
        ])
    );
}

#[test]
fn state_finished_compares_by_variant() {
    assert_eq!(StateFinished::No, StateFinished::No);
    assert_eq!(StateFinished::Yes, StateFinished::Yes);
    assert_ne!(StateFinished::No, StateFinished::Yes);
}
