//! Text pop-ups that hover over things in the world.
use vstd::prelude::*;
use vstd::string::StrSliceExecFns;
use vstd::string::StringExecFns;
use bevy::ecs::entity::Entity;

verus! {

/// A pop-up showing lines of text; once drawn it remembers the entities of its
/// text (foreground) and of the dark panel behind it (background).
pub struct UiPopup {
    pub strings: Vec<String>,
    pub foreground_child: Option<Entity>,
    pub background_child: Option<Entity>,
}

/// The longest length, in characters, among `lines`; zero when there are none.
pub open spec fn max_line_len(lines: Seq<Seq<char>>) -> nat
    decreases lines.len(),
{
    if lines.len() == 0 {
        0
    } else {
        let rest = max_line_len(lines.drop_last());
        if lines.last().len() > rest {
            lines.last().len()
        } else {
            rest
        }
    }
}

/// The width of a pop-up is the length of its longest line: no line is longer,
/// some line is exactly that long, and it is zero when there are no lines.
pub proof fn lemma_max_line_len(lines: Seq<Seq<char>>)
    ensures
        forall|i: int| 0 <= i < lines.len() ==> (#[trigger] lines[i]).len() <= max_line_len(lines),
        lines.len() > 0 ==> exists|i: int| 0 <= i < lines.len() && (#[trigger] lines[i]).len() == max_line_len(lines),
        lines.len() == 0 ==> max_line_len(lines) == 0,
    decreases lines.len(),
{
    if lines.len() > 0 {
        let rest = lines.drop_last();
        lemma_max_line_len(rest);
        assert forall|i: int| 0 <= i < lines.len() implies (#[trigger] lines[i]).len() <= max_line_len(lines) by {
            if i < rest.len() {
                assert(rest[i] == lines[i]);
            }
        }
        if lines.last().len() > max_line_len(rest) || rest.len() == 0 {
            assert(lines[lines.len() - 1].len() == max_line_len(lines));
        } else {
            let k = choose|k: int| 0 <= k < rest.len() && (#[trigger] rest[k]).len() == max_line_len(rest);
            assert(lines[k] == rest[k]);
        }
    }
}

/// The text sections of a pop-up: its lines with a line feed between each two.
pub open spec fn popup_sections(lines: Seq<Seq<char>>) -> Seq<Seq<char>>
    decreases lines.len(),
{
    if lines.len() <= 1 {
        lines
    } else {
        popup_sections(lines.drop_last()).push(seq!['\n']).push(lines.last())
    }
}

impl UiPopup {
    /// A pop-up with the given lines, not drawn yet.
    pub fn new(strings: Vec<String>) -> (r: Self)
        ensures
            r.strings@ == strings@,
            r.foreground_child is None,
            r.background_child is None,
    {
        UiPopup { strings, foreground_child: None, background_child: None }
    }

    /// The size of the panel behind the text: as wide as the longest line has
    /// characters and as high as there are lines.
    pub fn background_size(&self) -> (r: (usize, usize))
        ensures
            r.0 == max_line_len(self.strings.deep_view()),
            r.1 == self.strings.len(),
            forall|i: int| 0 <= i < self.strings.len() ==> self.strings@[i]@.len() <= r.0,
            self.strings.len() > 0 ==> exists|i: int|
                0 <= i < self.strings.len() && self.strings@[i]@.len() == r.0,
            self.strings.len() == 0 ==> r.0 == 0,
    {

        let mut widest: usize = 0;
        let mut i: usize = 0;
        while i < self.strings.len()
            invariant
                i <= self.strings.len(),
                widest == max_line_len(self.strings.deep_view().take(i as int)),
            decreases self.strings.len() - i,
        {
            proof {
                assert(self.strings.deep_view().take(i as int + 1).drop_last() =~= self.strings.deep_view().take(
                    i as int,
                ));
            }
            let n = self.strings[i].as_str().unicode_len();
            if n > widest {
                widest = n;
            }
            i = i + 1;
        }
        proof {
            assert(self.strings.deep_view().take(self.strings.len() as int) =~= self.strings.deep_view());
            lemma_max_line_len(self.strings.deep_view());
            assert forall|i: int| 0 <= i < self.strings.len() implies self.strings@[i]@.len() <= widest by {
                assert(self.strings.deep_view()[i] == self.strings@[i]@);
            }
            if self.strings.len() > 0 {
                let k = choose|k: int| 0 <= k < self.strings.len() && (#[trigger] self.strings.deep_view()[k]).len() == widest;
                assert(self.strings.deep_view()[k] == self.strings@[k]@);
            }
        }
        (widest, self.strings.len())
    }

    /// The text to draw: the lines, with a line feed section between each two.
    pub fn text_sections(&self) -> (r: Vec<String>)
        ensures
            r.deep_view() == popup_sections(self.strings.deep_view()),
    {
        let mut out: Vec<String> = Vec::new();
        let mut i: usize = 0;
        while i < self.strings.len()
            invariant
                i <= self.strings.len(),
                out.deep_view() == popup_sections(self.strings.deep_view().take(i as int)),
            decreases self.strings.len() - i,
        {
            proof {
                assert(self.strings.deep_view().take(i as int + 1).drop_last() =~= self.strings.deep_view().take(
                    i as int,
                ));
                reveal_strlit("\n");
            }
            let ghost before = out.deep_view();
            let ghost line = self.strings.deep_view()[i as int];
            if i > 0 {
                let newline = String::from_str("\n");
                assert(newline@ =~= seq!['\n']);
                out.push(newline);
                assert(out.deep_view() =~= before.push(seq!['\n']));
            }
            let ghost middle = out.deep_view();
            out.push(self.strings[i].clone());
            proof {
                assert(out.deep_view() =~= middle.push(line));
                assert(self.strings.deep_view().take(i as int + 1).last() == line);
                if i == 0 {
                    assert(self.strings.deep_view().take(1) =~= seq![line]);
                }
                assert(out.deep_view() =~= popup_sections(self.strings.deep_view().take(i as int + 1)));
            }
            i = i + 1;
        }
        proof {
            assert(self.strings.deep_view().take(self.strings.len() as int) =~= self.strings.deep_view());
        }
        out
    }

    /// The entities of an earlier drawing, when both the text and the panel
    /// exist; the pop-up is then redrawn in place instead of spawning anew.
    pub fn drawn_children(&self) -> (r: Option<(Entity, Entity)>)
        ensures
            r == match (self.foreground_child, self.background_child) {
                (Some(f), Some(b)) => Some((f, b)),
                _ => None,
            },
    {
        match (self.foreground_child, self.background_child) {
            (Some(f), Some(b)) => Some((f, b)),
            _ => None,
        }
    }
}

} // verus!
