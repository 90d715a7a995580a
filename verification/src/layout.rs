//! The keyboard layout of the session, and how it is told from what the session reports.

use vstd::prelude::*;

verus! {

/// An XKB layout and variant, such as `us` and `intl`; empty text stands for the default.
#[derive(Clone, Debug)]
pub struct KeyboardLayout {
    pub layout: String,
    pub variant: String,
}

/// The names in a `KeyboardLayout`.
pub struct LayoutNames {
    pub layout: Seq<char>,
    pub variant: Seq<char>,
}

impl View for KeyboardLayout {
    type V = LayoutNames;

    open spec fn view(&self) -> LayoutNames {
        LayoutNames { layout: self.layout@, variant: self.variant@ }
    }
}

/// What a command that ran to its end left: whether it succeeded, and its standard output.
#[derive(Clone, Debug)]
pub struct CommandOutput {
    pub success: bool,
    pub stdout: Vec<u8>,
}

/// What a command said, where it could be run and succeeded.
pub open spec fn said(output: Option<CommandOutput>) -> Option<Seq<u8>> {
    match output {
        Some(out) => if out.success {
            Some(out.stdout@)
        } else {
            None
        },
        None => None,
    }
}

/// What a command said, where it could be run and succeeded.
pub(crate) fn stdout_of(output: Option<CommandOutput>) -> (bytes: Option<Vec<u8>>)
    ensures
        bytes is Some <==> said(output) is Some,
        bytes matches Some(b) ==> said(output) == Some(b@),
{
    match output {
        Some(out) => if out.success {
            Some(out.stdout)
        } else {
            None
        },
        None => None,
    }
}

/// Whether what was found is what `names` says: nothing, or a layout with those names.
pub open spec fn same_find(found: Option<KeyboardLayout>, names: Option<LayoutNames>) -> bool {
    match found {
        Some(layout) => names == Some(layout@),
        None => names is None,
    }
}

/// The first element of `s` that `p` holds of.
pub open spec fn first_where<T>(s: Seq<T>, p: spec_fn(T) -> bool) -> Option<T>
    decreases s.len(),
{
    if s.len() == 0 {
        None
    } else if p(s[0]) {
        Some(s[0])
    } else {
        first_where(s.drop_first(), p)
    }
}

/// Where `p` holds of no element before `i`, the first one it holds of is at `i` or later.
pub proof fn lemma_first_where<T>(s: Seq<T>, p: spec_fn(T) -> bool, i: int)
    requires
        0 <= i <= s.len(),
        forall|j: int| 0 <= j < i ==> !p(#[trigger] s[j]),
    ensures
        i == s.len() ==> first_where(s, p) is None,
        i < s.len() && p(s[i]) ==> first_where(s, p) == Some(s[i]),
    decreases s.len(),
{
    if i > 0 {
        let rest = s.drop_first();
        assert(!p(s[0]));
        assert forall|j: int| 0 <= j < i - 1 implies !p(#[trigger] rest[j]) by {
            assert(rest[j] == s[j + 1]);
        }
        lemma_first_where(rest, p, i - 1);
    }
}

impl KeyboardLayout {
    /// The layout named by an application that knows it.
    pub fn from_names(layout: &str, variant: Option<&str>) -> (named: KeyboardLayout)
        ensures
            named.layout@ == layout@,
            match variant {
                Some(v) => named.variant@ == v@,
                None => named.variant@ == Seq::<char>::empty(),
            },
    {
        KeyboardLayout {
            layout: layout.to_owned(),
            variant: match variant {
                Some(v) => v.to_owned(),
                None => String::new(),
            },
        }
    }

    /// The names in the environment variables `XKB_DEFAULT_LAYOUT` and `XKB_DEFAULT_VARIANT`.
    pub open spec fn env_names(
        layout: Option<String>,
        variant: Option<String>,
    ) -> Option<LayoutNames> {
        match layout {
            Some(l) if l@.len() > 0 => Some(
                LayoutNames {
                    layout: l@,
                    variant: match variant {
                        Some(v) => v@,
                        None => Seq::empty(),
                    },
                },
            ),
            _ => None,
        }
    }

    /// The layout from the environment variables `XKB_DEFAULT_LAYOUT` and
    /// `XKB_DEFAULT_VARIANT`, where the first is set and not empty.
    pub fn from_env(layout: Option<String>, variant: Option<String>) -> (found: Option<
        KeyboardLayout,
    >)
        ensures
            same_find(found, Self::env_names(layout, variant)),
    {
        match layout {
            Some(layout) => {
                if layout.as_str().is_empty() {
                    return None;
                }
                let variant = match variant {
                    Some(v) => v,
                    None => String::new(),
                };
                Some(KeyboardLayout { layout, variant })
            },
            None => None,
        }
    }
}

} // verus!
