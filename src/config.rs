use vstd::prelude::*;
use vstd::string::StrSliceExecFns;

verus! {

/// Horizontal alignment of text or of a title.
#[derive(Debug, Clone, Copy, PartialEq, Eq, Structural)]
pub enum Alignment {
    Left,
    Center,
    Right,
}

/// A style modifier of text.
#[derive(Debug, Clone, Copy, PartialEq, Eq, Structural)]
pub enum Modifier {
    Bold,
    Dim,
    Italic,
    Underlined,
    SlowBlink,
    RapidBlink,
    Reversed,
    Hidden,
    CrossedOut,
}

/// A side of a block to draw a border on, or all of them.
#[derive(Debug, Clone, Copy, PartialEq, Eq, Structural)]
pub enum Border {
    Top,
    Right,
    Bottom,
    Left,
    All,
}

/// The sides of a block that carry a border.
#[derive(Debug, Clone, Copy, PartialEq, Eq, Structural)]
pub struct Sides {
    pub top: bool,
    pub right: bool,
    pub bottom: bool,
    pub left: bool,
}

pub open spec fn names_side(bs: Seq<Border>, side: Border) -> bool {
    exists|i: int| 0 <= i < bs.len() && (bs[i] == side || bs[i] == Border::All)
}

/// The union of the sides that a list of borders names; none for an empty list.
pub fn border_sides(borders: &Vec<Border>) -> (r: Sides)
    ensures
        r.top == names_side(borders@, Border::Top),
        r.right == names_side(borders@, Border::Right),
        r.bottom == names_side(borders@, Border::Bottom),
        r.left == names_side(borders@, Border::Left),
{
    let mut r = Sides { top: false, right: false, bottom: false, left: false };
    let mut i: usize = 0;
    while i < borders.len()
        invariant
            0 <= i <= borders@.len(),
            r.top == names_side(borders@.take(i as int), Border::Top),
            r.right == names_side(borders@.take(i as int), Border::Right),
            r.bottom == names_side(borders@.take(i as int), Border::Bottom),
            r.left == names_side(borders@.take(i as int), Border::Left),
        decreases borders@.len() - i,
    {
        let ghost pre = borders@.take(i as int);
        let ghost next = borders@.take(i + 1);
        match borders[i] {
            Border::Top => r.top = true,
            Border::Right => r.right = true,
            Border::Bottom => r.bottom = true,
            Border::Left => r.left = true,
            Border::All => {
                r = Sides { top: true, right: true, bottom: true, left: true };
            },
        }
        proof {
            assert(next =~= pre.push(borders@[i as int]));
            assert forall|side: Border|
                names_side(pre, side) || borders@[i as int] == side || borders@[i as int]
                    == Border::All implies names_side(next, side) by {
                if names_side(pre, side) {
                    let j: int = choose|j: int|
                        0 <= j < pre.len() && (pre[j] == side || pre[j] == Border::All);
                    assert(next[j] == pre[j]);
                } else {
                    assert(next[i as int] == borders@[i as int]);
                }
            }
            assert forall|side: Border| names_side(next, side) implies names_side(pre, side)
                || borders@[i as int] == side || borders@[i as int] == Border::All by {
                let j: int = choose|j: int|
                    0 <= j < next.len() && (next[j] == side || next[j] == Border::All);
                if j < i {
                    assert(pre[j] == next[j]);
                }
            }
        }
        i = i + 1;
    }
    proof {
        assert(borders@.take(i as int) =~= borders@);
    }
    r
}

/// Line wrapping of a paragraph.
#[derive(Debug, Clone, Copy, PartialEq, Eq, Structural)]
pub struct Wrap {
    /// Whether lines are wrapped.
    pub wrap: bool,
    /// Whether leading spaces are trimmed from wrapped lines.
    pub trim: bool,
}

impl Wrap {
    /// The trim setting where wrapping is on; `None` where it is off.
    pub fn trim_setting(&self) -> (r: Option<bool>)
        ensures
            r == (if self.wrap {
                Some(self.trim)
            } else {
                None::<bool>
            }),
    {
        if self.wrap {
            Some(self.trim)
        } else {
            None
        }
    }
}

/// A path argument: `-` names the standard stream, anything else a file.
#[derive(Debug, Clone)]
pub struct Path(pub Option<String>);

pub open spec fn is_standard_stream(arg: Seq<char>) -> bool {
    arg == seq!['-']
}

impl Path {
    pub fn parse(arg: &str) -> (r: Path)
        ensures
            is_standard_stream(arg@) ==> r.0 is None,
            !is_standard_stream(arg@) ==> (r.0 matches Some(s) && s@ == arg@),
    {
        if arg.unicode_len() == 1 && arg.get_char(0) == '-' {
            proof {
                assert(arg@ =~= seq!['-']);
            }
            Path(None)
        } else {
            Path(Some(arg.to_owned()))
        }
    }

    /// The file that the path names; `None` for the standard stream.
    pub fn file(self) -> (r: Option<String>)
        ensures
            r == self.0,
    {
        self.0
    }
}

} // verus!
