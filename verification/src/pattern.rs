//! Recognition of secret-file pointers among environment variable names and
//! derivation of the key under which a loaded document is attached.

use crate::text::{chars_of, ends_with, equal, lowercase, replace, replace_all, slice, starts_with, string_of};
use vstd::prelude::*;

verus! {

/// The lower-cased patterns that variable names are held against.
pub struct DerivedPatterns {
    /// What a name must start with, if a prefix is configured.
    pub prefix: Option<Seq<char>>,
    /// What a name must end with.
    pub suffix: Seq<char>,
    /// The name that, alone, asks for a document to be merged at the root.
    pub full: Seq<char>,
    /// The segment separator that becomes a dot; empty for no translation.
    pub separator: Seq<char>,
    /// Whether a matched prefix stays in the derived key.
    pub keep_prefix: bool,
}

/// Where a loaded document goes in the result tree.
pub enum Placement {
    /// Its top-level keys are merged into the tree directly.
    Root,
    /// It is attached as one table under this key.
    Key(Seq<char>),
}

/// The key with each occurrence of the segment separator turned into a dot.
/// An empty separator leaves the key as it is.
pub open spec fn translate(key: Seq<char>, separator: Seq<char>) -> Seq<char> {
    replace_all(key, separator, seq!['.'])
}

/// The key that remains of a lower-cased name once the prefix is checked,
/// and removed unless it is kept.
pub open spec fn after_prefix(p: DerivedPatterns, key: Seq<char>) -> Option<Seq<char>> {
    match p.prefix {
        Some(pre) => if pre.is_prefix_of(key) {
            Some(
                if p.keep_prefix {
                    key
                } else {
                    key.skip(pre.len() as int)
                },
            )
        } else {
            None
        },
        None => Some(key),
    }
}

/// The key that remains once the suffix is checked and removed.
pub open spec fn after_suffix(p: DerivedPatterns, key: Seq<char>) -> Option<Seq<char>> {
    if p.suffix.is_suffix_of(key) {
        Some(key.take(key.len() - p.suffix.len()))
    } else {
        None
    }
}

/// The key derived from a lower-cased name that is not the full pattern:
/// prefix check, suffix check, then separator translation. `None` where the
/// name fails either check.
pub open spec fn derived_key(p: DerivedPatterns, key: Seq<char>) -> Option<Seq<char>> {
    match after_prefix(p, key) {
        Some(stem) => match after_suffix(p, stem) {
            Some(bare) => Some(translate(bare, p.separator)),
            None => None,
        },
        None => None,
    }
}

/// What one environment variable asks for: nothing (`None`), a merge at the
/// root, or an attachment under a derived key. A variable with an empty value
/// counts as unset; the full pattern takes precedence over the prefix and
/// suffix checks.
pub open spec fn classify(p: DerivedPatterns, name: Seq<char>, value: Seq<char>) -> Option<
    Placement,
> {
    let key = lowercase(name);
    if value.len() == 0 {
        None
    } else if key == p.full {
        Some(Placement::Root)
    } else {
        match derived_key(p, key) {
            Some(k) => Some(Placement::Key(k)),
            None => None,
        }
    }
}

/// Replacing a dot with a dot changes nothing.
proof fn lemma_replace_dot_by_dot(key: Seq<char>)
    ensures
        replace_all(key, seq!['.'], seq!['.']) == key,
    decreases key.len(),
{
    let dot = seq!['.'];
    if key.len() > 0 {
        if dot.is_prefix_of(key) {
            lemma_replace_dot_by_dot(key.skip(1));
            assert(key.subrange(0, 1) =~= dot);
            assert(dot + key.skip(1) =~= key);
        } else {
            lemma_replace_dot_by_dot(key.skip(1));
            assert(seq![key[0]] + key.skip(1) =~= key);
        }
    }
}

/// With no segment separator the key is used as it stands.
pub proof fn lemma_no_separator_no_translation(key: Seq<char>)
    ensures
        translate(key, Seq::empty()) == key,
{
}

/// Under the separator `.` a key is used as it is written.
pub proof fn lemma_dotted_key_is_kept(key: Seq<char>)
    ensures
        translate(key, seq!['.']) == key,
{
    lemma_replace_dot_by_dot(key);
}

/// The prefix pattern where a prefix is configured, else nothing.
pub open spec fn prefix_or_nothing(p: DerivedPatterns) -> Seq<char> {
    match p.prefix {
        Some(pre) => pre,
        None => Seq::empty(),
    }
}

/// The lower-cased name in which `middle` stands between the prefix pattern
/// and the suffix pattern.
pub open spec fn bracketed(p: DerivedPatterns, middle: Seq<char>) -> Seq<char> {
    prefix_or_nothing(p) + middle + p.suffix
}

/// The key that the name with `middle` between prefix pattern and suffix
/// pattern comes to: the translation of `middle`, with the prefix pattern in
/// front of it where the prefix is kept.
pub open spec fn key_of(p: DerivedPatterns, middle: Seq<char>) -> Seq<char> {
    translate(
        if p.keep_prefix {
            prefix_or_nothing(p) + middle
        } else {
            middle
        },
        p.separator,
    )
}

/// Every name that stands between prefix pattern and suffix pattern passes
/// both checks, whatever the two separators are, and derives the key of its
/// middle: the prefix is stripped unless it is kept, the suffix always.
pub proof fn lemma_key_between_prefix_and_suffix(p: DerivedPatterns, middle: Seq<char>)
    ensures
        derived_key(p, bracketed(p, middle)) == Some(key_of(p, middle)),
{
    let pre = prefix_or_nothing(p);
    let key = pre + middle + p.suffix;
    assert(key.subrange(0, pre.len() as int) =~= pre);
    assert(key.skip(pre.len() as int) =~= middle + p.suffix);
    assert(p.prefix is None ==> pre + middle =~= middle);
    let stem = after_prefix(p, key)->Some_0;
    let kept = if p.keep_prefix {
        pre + middle
    } else {
        middle
    };
    assert(stem =~= kept + p.suffix);
    assert(stem.subrange(stem.len() - p.suffix.len(), stem.len() as int) =~= p.suffix);
    assert(stem.take(stem.len() - p.suffix.len()) =~= kept);
}

/// Changing the separator changes the shape of the key in the same way:
/// where the prefix is not kept, a name whose middle is written with dots
/// derives under the separator `.` the key that the name whose middle is
/// written with another separator derives under that separator.
pub proof fn lemma_same_key_under_dots(
    p: DerivedPatterns,
    dotted: DerivedPatterns,
    middle: Seq<char>,
)
    requires
        dotted.separator == seq!['.'],
        !p.keep_prefix,
        !dotted.keep_prefix,
    ensures
        derived_key(dotted, bracketed(dotted, translate(middle, p.separator))) == derived_key(
            p,
            bracketed(p, middle),
        ),
{
    lemma_key_between_prefix_and_suffix(p, middle);
    lemma_key_between_prefix_and_suffix(dotted, translate(middle, p.separator));
    lemma_dotted_key_is_kept(translate(middle, p.separator));
}

/// A variable with an empty value asks for nothing, whatever its name.
pub proof fn lemma_empty_value_asks_for_nothing(p: DerivedPatterns, name: Seq<char>)
    ensures
        classify(p, name, Seq::empty()) is None,
{
}

/// A variable whose lower-cased name is the full pattern, and whose value is
/// not empty, asks for a merge at the root.
pub proof fn lemma_full_pattern_asks_for_root(p: DerivedPatterns, name: Seq<char>, value: Seq<char>)
    requires
        lowercase(name) == p.full,
        value.len() > 0,
    ensures
        classify(p, name, value) == Some(Placement::Root),
{
}

/// Executable form of [`Placement`].
#[derive(Debug)]
pub enum Target {
    Root,
    Key(String),
}

impl View for Target {
    type V = Placement;

    open spec fn view(&self) -> Placement {
        match self {
            Target::Root => Placement::Root,
            Target::Key(k) => Placement::Key(k@),
        }
    }
}

/// Executable form of [`DerivedPatterns`], computed once per collection pass.
#[derive(Debug)]
pub struct Patterns {
    prefix: Option<Vec<char>>,
    suffix: Vec<char>,
    full: Vec<char>,
    separator: Vec<char>,
    keep_prefix: bool,
}

impl View for Patterns {
    type V = DerivedPatterns;

    closed spec fn view(&self) -> DerivedPatterns {
        DerivedPatterns {
            prefix: match self.prefix {
                Some(pre) => Some(pre@),
                None => None,
            },
            suffix: self.suffix@,
            full: self.full@,
            separator: self.separator@,
            keep_prefix: self.keep_prefix,
        }
    }
}

impl Patterns {
    /// Puts already lower-cased patterns together.
    pub(crate) fn assemble(
        prefix: Option<Vec<char>>,
        suffix: Vec<char>,
        full: Vec<char>,
        separator: Vec<char>,
        keep_prefix: bool,
    ) -> (r: Self)
        ensures
            r@ == (DerivedPatterns {
                prefix: match prefix {
                    Some(pre) => Some(pre@),
                    None => None,
                },
                suffix: suffix@,
                full: full@,
                separator: separator@,
                keep_prefix,
            }),
    {
        Patterns { prefix, suffix, full, separator, keep_prefix }
    }

    /// The prefix pattern, if a prefix is configured.
    pub fn prefix_pattern(&self) -> (r: Option<String>)
        ensures
            match r {
                Some(s) => self@.prefix == Some(s@),
                None => self@.prefix is None,
            },
    {
        match &self.prefix {
            Some(pre) => Some(string_of(pre)),
            None => None,
        }
    }

    /// The suffix pattern.
    pub fn suffix_pattern(&self) -> (r: String)
        ensures
            r@ == self@.suffix,
    {
        string_of(&self.suffix)
    }

    /// The full pattern.
    pub fn full_pattern(&self) -> (r: String)
        ensures
            r@ == self@.full,
    {
        string_of(&self.full)
    }

    /// Decides what the variable `name` with the value `value` asks for.
    pub fn classify(&self, name: &str, value: &str) -> (r: Option<Target>)
        ensures
            match r {
                Some(t) => classify(self@, name@, value@) == Some(t@),
                None => classify(self@, name@, value@) is None,
            },
    {
        if value.is_empty() {
            return None;
        }
        let lower = name.to_lowercase();
        let key = chars_of(lower.as_str());
        if equal(&key, &self.full) {
            return Some(Target::Root);
        }
        let stem = match &self.prefix {
            Some(pre) => {
                if !starts_with(&key, pre) {
                    return None;
                }
                if self.keep_prefix {
                    key
                } else {
                    slice(&key, pre.len(), key.len())
                }
            },
            None => key,
        };
        if !ends_with(&stem, &self.suffix) {
            return None;
        }
        let bare = slice(&stem, 0, stem.len() - self.suffix.len());
        let mut dot: Vec<char> = Vec::new();
        dot.push('.');
        assert(dot@ =~= seq!['.']);
        let translated = replace(&bare, &self.separator, &dot);
        Some(Target::Key(string_of(&translated)))
    }
}

} // verus!
