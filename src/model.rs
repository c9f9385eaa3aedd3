//! Task records: completion state, priority, dates, description and tags.
use crate::date::Date;
use vstd::prelude::*;

verus! {

/// Whether a record is still open or completed.
#[derive(Debug, Clone, Copy, PartialEq, Eq, Structural, PartialOrd, Ord, Hash)]
pub enum TaskState {
    Todo,
    Done,
}

impl Default for TaskState {
    fn default() -> (r: TaskState)
        ensures
            r == TaskState::Todo,
    {
        TaskState::Todo
    }
}

/// A rank from `A` (highest) to `Z`.
#[derive(Debug, Clone, Copy, PartialEq, Eq, Structural, PartialOrd, Ord, Hash)]
pub enum TaskPriority {
    A,
    B,
    C,
    D,
    E,
    F,
    G,
    H,
    I,
    J,
    K,
    L,
    M,
    N,
    O,
    P,
    Q,
    R,
    S,
    T,
    U,
    V,
    W,
    X,
    Y,
    Z,
}

impl TaskPriority {
    /// The letter that names this priority.
    pub open spec fn letter(self) -> char {
        match self {
            TaskPriority::A => 'A',
            TaskPriority::B => 'B',
            TaskPriority::C => 'C',
            TaskPriority::D => 'D',
            TaskPriority::E => 'E',
            TaskPriority::F => 'F',
            TaskPriority::G => 'G',
            TaskPriority::H => 'H',
            TaskPriority::I => 'I',
            TaskPriority::J => 'J',
            TaskPriority::K => 'K',
            TaskPriority::L => 'L',
            TaskPriority::M => 'M',
            TaskPriority::N => 'N',
            TaskPriority::O => 'O',
            TaskPriority::P => 'P',
            TaskPriority::Q => 'Q',
            TaskPriority::R => 'R',
            TaskPriority::S => 'S',
            TaskPriority::T => 'T',
            TaskPriority::U => 'U',
            TaskPriority::V => 'V',
            TaskPriority::W => 'W',
            TaskPriority::X => 'X',
            TaskPriority::Y => 'Y',
            TaskPriority::Z => 'Z',
        }
    }

    /// The position of this priority in the alphabet, from 0 for `A`.
    pub open spec fn rank(self) -> int {
        (self.letter() as u32) as int - ('A' as u32) as int
    }

    /// The priority at position `i` of the alphabet.
    pub open spec fn from_rank(i: int) -> TaskPriority {
        if i == 0 {
            TaskPriority::A
        } else if i == 1 {
            TaskPriority::B
        } else if i == 2 {
            TaskPriority::C
        } else if i == 3 {
            TaskPriority::D
        } else if i == 4 {
            TaskPriority::E
        } else if i == 5 {
            TaskPriority::F
        } else if i == 6 {
            TaskPriority::G
        } else if i == 7 {
            TaskPriority::H
        } else if i == 8 {
            TaskPriority::I
        } else if i == 9 {
            TaskPriority::J
        } else if i == 10 {
            TaskPriority::K
        } else if i == 11 {
            TaskPriority::L
        } else if i == 12 {
            TaskPriority::M
        } else if i == 13 {
            TaskPriority::N
        } else if i == 14 {
            TaskPriority::O
        } else if i == 15 {
            TaskPriority::P
        } else if i == 16 {
            TaskPriority::Q
        } else if i == 17 {
            TaskPriority::R
        } else if i == 18 {
            TaskPriority::S
        } else if i == 19 {
            TaskPriority::T
        } else if i == 20 {
            TaskPriority::U
        } else if i == 21 {
            TaskPriority::V
        } else if i == 22 {
            TaskPriority::W
        } else if i == 23 {
            TaskPriority::X
        } else if i == 24 {
            TaskPriority::Y
        } else {
            TaskPriority::Z
        }
    }

    /// The priority that a character names, either case; `A` for any other character.
    pub open spec fn from_char_spec(c: char) -> TaskPriority {
        if 'A' <= c <= 'Z' {
            TaskPriority::from_rank((c as u32) as int - ('A' as u32) as int)
        } else if 'a' <= c <= 'z' {
            TaskPriority::from_rank((c as u32) as int - ('a' as u32) as int)
        } else {
            TaskPriority::A
        }
    }

    /// The priority at 1-based position `v` of the alphabet; `A` outside 1 to 26.
    pub open spec fn from_int_spec(v: i32) -> TaskPriority {
        if 1 <= v <= 26 {
            TaskPriority::from_rank(v - 1)
        } else {
            TaskPriority::A
        }
    }

    pub fn rank_of(&self) -> (r: u8)
        ensures
            r as int == self.rank(),
            r < 26,
    {
        let c: char = char::from(*self);
        (c as u32 - 'A' as u32) as u8
    }
}

impl Default for TaskPriority {
    fn default() -> (r: TaskPriority)
        ensures
            r == TaskPriority::A,
    {
        TaskPriority::A
    }
}

impl From<TaskPriority> for char {
    fn from(value: TaskPriority) -> char {
        match value {
            TaskPriority::A => 'A',
            TaskPriority::B => 'B',
            TaskPriority::C => 'C',
            TaskPriority::D => 'D',
            TaskPriority::E => 'E',
            TaskPriority::F => 'F',
            TaskPriority::G => 'G',
            TaskPriority::H => 'H',
            TaskPriority::I => 'I',
            TaskPriority::J => 'J',
            TaskPriority::K => 'K',
            TaskPriority::L => 'L',
            TaskPriority::M => 'M',
            TaskPriority::N => 'N',
            TaskPriority::O => 'O',
            TaskPriority::P => 'P',
            TaskPriority::Q => 'Q',
            TaskPriority::R => 'R',
            TaskPriority::S => 'S',
            TaskPriority::T => 'T',
            TaskPriority::U => 'U',
            TaskPriority::V => 'V',
            TaskPriority::W => 'W',
            TaskPriority::X => 'X',
            TaskPriority::Y => 'Y',
            TaskPriority::Z => 'Z',
        }
    }
}

impl vstd::std_specs::convert::FromSpecImpl<TaskPriority> for char {
    open spec fn obeys_from_spec() -> bool {
        true
    }

    open spec fn from_spec(v: TaskPriority) -> char {
        v.letter()
    }
}

impl From<char> for TaskPriority {
    fn from(value: char) -> TaskPriority {
        match value {
            'A' | 'a' => TaskPriority::A,
            'B' | 'b' => TaskPriority::B,
            'C' | 'c' => TaskPriority::C,
            'D' | 'd' => TaskPriority::D,
            'E' | 'e' => TaskPriority::E,
            'F' | 'f' => TaskPriority::F,
            'G' | 'g' => TaskPriority::G,
            'H' | 'h' => TaskPriority::H,
            'I' | 'i' => TaskPriority::I,
            'J' | 'j' => TaskPriority::J,
            'K' | 'k' => TaskPriority::K,
            'L' | 'l' => TaskPriority::L,
            'M' | 'm' => TaskPriority::M,
            'N' | 'n' => TaskPriority::N,
            'O' | 'o' => TaskPriority::O,
            'P' | 'p' => TaskPriority::P,
            'Q' | 'q' => TaskPriority::Q,
            'R' | 'r' => TaskPriority::R,
            'S' | 's' => TaskPriority::S,
            'T' | 't' => TaskPriority::T,
            'U' | 'u' => TaskPriority::U,
            'V' | 'v' => TaskPriority::V,
            'W' | 'w' => TaskPriority::W,
            'X' | 'x' => TaskPriority::X,
            'Y' | 'y' => TaskPriority::Y,
            'Z' | 'z' => TaskPriority::Z,
            _ => TaskPriority::A,
        }
    }
}

impl vstd::std_specs::convert::FromSpecImpl<char> for TaskPriority {
    open spec fn obeys_from_spec() -> bool {
        true
    }

    open spec fn from_spec(v: char) -> TaskPriority {
        TaskPriority::from_char_spec(v)
    }
}

impl From<i32> for TaskPriority {
    fn from(value: i32) -> TaskPriority {
        match value {
            1 => TaskPriority::A,
            2 => TaskPriority::B,
            3 => TaskPriority::C,
            4 => TaskPriority::D,
            5 => TaskPriority::E,
            6 => TaskPriority::F,
            7 => TaskPriority::G,
            8 => TaskPriority::H,
            9 => TaskPriority::I,
            10 => TaskPriority::J,
            11 => TaskPriority::K,
            12 => TaskPriority::L,
            13 => TaskPriority::M,
            14 => TaskPriority::N,
            15 => TaskPriority::O,
            16 => TaskPriority::P,
            17 => TaskPriority::Q,
            18 => TaskPriority::R,
            19 => TaskPriority::S,
            20 => TaskPriority::T,
            21 => TaskPriority::U,
            22 => TaskPriority::V,
            23 => TaskPriority::W,
            24 => TaskPriority::X,
            25 => TaskPriority::Y,
            26 => TaskPriority::Z,
            _ => TaskPriority::A,
        }
    }
}

impl vstd::std_specs::convert::FromSpecImpl<i32> for TaskPriority {
    open spec fn obeys_from_spec() -> bool {
        true
    }

    open spec fn from_spec(v: i32) -> TaskPriority {
        TaskPriority::from_int_spec(v)
    }
}

/// The free text of a record and its tags.
#[derive(Debug, Clone, PartialEq, Eq)]
pub struct TaskDescription {
    pub value: String,
    pub project: Vec<String>,
    pub context: Vec<String>,
}

/// A task record.
#[derive(Debug, Clone, PartialEq, Eq)]
pub struct Task {
    pub state: TaskState,
    pub priority: Option<TaskPriority>,
    pub completed_date: Option<Date>,
    pub created_date: Option<Date>,
    pub description: TaskDescription,
}

/// The texts of a sequence of strings.
pub open spec fn texts(v: Seq<String>) -> Seq<Seq<char>> {
    v.map_values(|s: String| s@)
}

pub open spec fn date_view(d: Option<Date>) -> Option<(int, int, int)> {
    match d {
        Some(d) => Some(d@),
        None => None,
    }
}

pub struct DescriptionView {
    pub value: Seq<char>,
    pub project: Seq<Seq<char>>,
    pub context: Seq<Seq<char>>,
}

pub struct TaskView {
    pub state: TaskState,
    pub priority: Option<TaskPriority>,
    pub completed_date: Option<(int, int, int)>,
    pub created_date: Option<(int, int, int)>,
    pub description: DescriptionView,
}

impl View for TaskDescription {
    type V = DescriptionView;

    open spec fn view(&self) -> DescriptionView {
        DescriptionView {
            value: self.value@,
            project: texts(self.project@),
            context: texts(self.context@),
        }
    }
}

impl View for Task {
    type V = TaskView;

    open spec fn view(&self) -> TaskView {
        TaskView {
            state: self.state,
            priority: self.priority,
            completed_date: date_view(self.completed_date),
            created_date: date_view(self.created_date),
            description: self.description@,
        }
    }
}

/// A copy of a sequence of strings.
pub fn copy_strings(v: &Vec<String>) -> (r: Vec<String>)
    ensures
        r@ == v@,
        texts(r@) == texts(v@),
{
    let mut r: Vec<String> = Vec::new();
    let mut i: usize = 0;
    while i < v.len()
        invariant
            i <= v@.len(),
            r@ == v@.take(i as int),
        decreases v@.len() - i,
    {
        r.push(v[i].clone());
        assert(r@ =~= v@.take(i + 1));
        i = i + 1;
    }
    assert(r@ =~= v@);
    r
}

impl TaskDescription {
    pub fn duplicate(&self) -> (r: TaskDescription)
        ensures
            r@ == self@,
    {
        TaskDescription {
            value: self.value.clone(),
            project: copy_strings(&self.project),
            context: copy_strings(&self.context),
        }
    }
}

impl Default for TaskDescription {
    fn default() -> (r: TaskDescription)
        ensures
            r@.value.len() == 0,
            r@.project.len() == 0,
            r@.context.len() == 0,
    {
        TaskDescription { value: String::new(), project: Vec::new(), context: Vec::new() }
    }
}

impl Task {
    pub fn is_done(&self) -> (r: bool)
        ensures
            r == (self.state == TaskState::Done),
    {
        self.state == TaskState::Done
    }

    /// A copy of this record.
    pub fn duplicate(&self) -> (r: Task)
        ensures
            r@ == self@,
    {
        Task {
            state: self.state,
            priority: self.priority,
            completed_date: self.completed_date,
            created_date: self.created_date,
            description: self.description.duplicate(),
        }
    }
}

impl Default for Task {
    fn default() -> (r: Task)
        ensures
            r.state == TaskState::Todo,
            r.priority is None,
            r.completed_date is None,
            r.created_date is None,
            r@.description.value.len() == 0,
            r@.description.project.len() == 0,
            r@.description.context.len() == 0,
    {
        Task {
            state: TaskState::Todo,
            priority: None,
            completed_date: None,
            created_date: None,
            description: TaskDescription::default(),
        }
    }
}

} // verus!
