//! Widget kinds: the closed set of node variants the tree can hold, with
//! the tag used by the diff engine's matching policy and deep content
//! equality used to decide whether a matched node changed.

use vstd::prelude::*;

verus! {

/// The kind of a widget node, together with its render content.
///
/// Text content is a sequence of code points; fonts and image/vector
/// resources are referenced by stable handle.
#[derive(Debug)]
pub enum WidgetKind {
    /// A grouping node that renders nothing itself, only its children.
    Fragment,
    /// A container that renders a background quad.
    Container,
    /// A clickable quad.
    Button,
    /// A text run: one primitive per glyph at extraction time.
    Text { font: u64, size: u32, content: Vec<u32> },
    /// An image quad referencing a texture handle.
    Image { handle: u64 },
    /// A vector path referencing a path-data handle.
    Svg { handle: u64 },
}

/// The matching tag of a kind: two nodes can only be updated in place
/// when their tags agree; content differences within a tag are updates.
pub open spec fn kind_tag(k: WidgetKind) -> int {
    match k {
        WidgetKind::Fragment => 0,
        WidgetKind::Container => 1,
        WidgetKind::Button => 2,
        WidgetKind::Text { .. } => 3,
        WidgetKind::Image { .. } => 4,
        WidgetKind::Svg { .. } => 5,
    }
}

/// Deep equality of two kinds, content included.
pub open spec fn kind_eq_spec(a: WidgetKind, b: WidgetKind) -> bool {
    match (a, b) {
        (WidgetKind::Fragment, WidgetKind::Fragment) => true,
        (WidgetKind::Container, WidgetKind::Container) => true,
        (WidgetKind::Button, WidgetKind::Button) => true,
        (
            WidgetKind::Text { font: fa, size: sa, content: ca },
            WidgetKind::Text { font: fb, size: sb, content: cb },
        ) => fa == fb && sa == sb && ca@ == cb@,
        (WidgetKind::Image { handle: ha }, WidgetKind::Image { handle: hb }) => ha == hb,
        (WidgetKind::Svg { handle: ha }, WidgetKind::Svg { handle: hb }) => ha == hb,
        _ => false,
    }
}

/// Deep-equal kinds carry the same matching tag.
pub proof fn lemma_kind_eq_same_tag(a: WidgetKind, b: WidgetKind)
    requires
        kind_eq_spec(a, b),
    ensures
        kind_tag(a) == kind_tag(b),
{
}

/// Whether two kinds carry the same matching tag.
pub fn same_tag(a: &WidgetKind, b: &WidgetKind) -> (r: bool)
    ensures
        r == (kind_tag(*a) == kind_tag(*b)),
{
    match (a, b) {
        (WidgetKind::Fragment, WidgetKind::Fragment) => true,
        (WidgetKind::Container, WidgetKind::Container) => true,
        (WidgetKind::Button, WidgetKind::Button) => true,
        (WidgetKind::Text { .. }, WidgetKind::Text { .. }) => true,
        (WidgetKind::Image { .. }, WidgetKind::Image { .. }) => true,
        (WidgetKind::Svg { .. }, WidgetKind::Svg { .. }) => true,
        _ => false,
    }
}

/// Element-wise equality of two code-point sequences.
fn vec_u32_eq(a: &Vec<u32>, b: &Vec<u32>) -> (r: bool)
    ensures
        r == (a@ == b@),
{
    if a.len() != b.len() {
        proof {
            assert(a@ != b@);
        }
        return false;
    }
    let mut i: usize = 0;
    while i < a.len()
        invariant
            0 <= i <= a@.len(),
            a@.len() == b@.len(),
            forall|j: int| 0 <= j < i ==> a@[j] == b@[j],
        decreases a@.len() - i,
    {
        if a[i] != b[i] {
            proof {
                assert(a@[i as int] != b@[i as int]);
            }
            return false;
        }
        i = i + 1;
    }
    proof {
        assert(a@ =~= b@);
    }
    true
}

/// Deep equality test of two kinds.
pub fn kind_eq(a: &WidgetKind, b: &WidgetKind) -> (r: bool)
    ensures
        r == kind_eq_spec(*a, *b),
{
    match (a, b) {
        (WidgetKind::Fragment, WidgetKind::Fragment) => true,
        (WidgetKind::Container, WidgetKind::Container) => true,
        (WidgetKind::Button, WidgetKind::Button) => true,
        (
            WidgetKind::Text { font: fa, size: sa, content: ca },
            WidgetKind::Text { font: fb, size: sb, content: cb },
        ) => *fa == *fb && *sa == *sb && vec_u32_eq(ca, cb),
        (WidgetKind::Image { handle: ha }, WidgetKind::Image { handle: hb }) => *ha == *hb,
        (WidgetKind::Svg { handle: ha }, WidgetKind::Svg { handle: hb }) => *ha == *hb,
        _ => false,
    }
}

/// A deep copy of a kind, equal to the value copied.
pub fn clone_kind(k: &WidgetKind) -> (r: WidgetKind)
    ensures
        kind_eq_spec(r, *k),
        kind_tag(r) == kind_tag(*k),
{
    match k {
        WidgetKind::Fragment => WidgetKind::Fragment,
        WidgetKind::Container => WidgetKind::Container,
        WidgetKind::Button => WidgetKind::Button,
        WidgetKind::Text { font, size, content } => {
            let c = clone_content(content);
            WidgetKind::Text { font: *font, size: *size, content: c }
        },
        WidgetKind::Image { handle } => WidgetKind::Image { handle: *handle },
        WidgetKind::Svg { handle } => WidgetKind::Svg { handle: *handle },
    }
}

/// A grouping widget that renders nothing itself: at extraction its
/// children render in its place, and it never handles an event.
pub struct Fragment {
    pub id: usize,
    pub styles: Option<crate::style::Style>,
}

impl Fragment {
    /// The committed node index this widget is bound to.
    pub fn get_id(&self) -> (r: usize)
        ensures
            r == self.id,
    {
        self.id
    }

    /// Rebinds the widget to a committed node index.
    pub fn set_id(&mut self, id: usize)
        ensures
            final(self).id == id,
            final(self).styles == old(self).styles,
    {
        self.id = id;
    }

    /// The style the widget declares, if any.
    pub fn get_styles(&self) -> (r: Option<crate::style::Style>)
        ensures
            r == self.styles,
    {
        self.styles
    }

    /// The widget's display name.
    pub fn get_name(&self) -> (r: &'static str)
        ensures
            r@ == "Fragment"@,
    {
        proof {
            reveal_strlit("Fragment");
        }
        "Fragment"
    }
}

/// A copy of a code-point sequence with the same view.
pub fn clone_content(c: &Vec<u32>) -> (r: Vec<u32>)
    ensures
        r@ == c@,
{
    let mut r: Vec<u32> = Vec::new();
    let mut i: usize = 0;
    while i < c.len()
        invariant
            0 <= i <= c@.len(),
            r@ =~= c@.take(i as int),
        decreases c@.len() - i,
    {
        r.push(c[i]);
        proof {
            assert(r@ =~= c@.take(i as int + 1));
        }
        i = i + 1;
    }
    proof {
        assert(c@.take(c@.len() as int) =~= c@);
    }
    r
}

} // verus!
