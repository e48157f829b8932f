//! The pattern configuration of a secret-file source and the patterns that
//! follow from it.

use crate::pattern::{
    classify, lemma_key_between_prefix_and_suffix, DerivedPatterns, Patterns, Placement,
};
use crate::text::{chars_of, concat, equal, lowercase, lowered};
use vstd::prelude::*;

verus! {

/// The suffix used where none is configured: `FILE`.
pub open spec fn default_suffix() -> Seq<char> {
    seq!['F', 'I', 'L', 'E']
}

/// The separator used around prefix and suffix where none is configured: `_`.
pub open spec fn default_separator() -> Seq<char> {
    seq!['_']
}

/// What a pattern configuration holds, as plain character sequences.
pub struct Settings {
    pub prefix: Option<Seq<char>>,
    pub prefix_separator: Option<Seq<char>>,
    pub suffix: Option<Seq<char>>,
    pub suffix_separator: Option<Seq<char>>,
    pub separator: Option<Seq<char>>,
    pub keep_prefix: bool,
}

impl Settings {
    /// The configuration in which nothing is set.
    pub open spec fn unset() -> Settings {
        Settings {
            prefix: None,
            prefix_separator: None,
            suffix: None,
            suffix_separator: None,
            separator: None,
            keep_prefix: false,
        }
    }

    /// The segment separator; empty where none is configured.
    pub open spec fn segment_separator(self) -> Seq<char> {
        match self.separator {
            Some(sep) => sep,
            None => Seq::empty(),
        }
    }

    /// The separator between the prefix and the rest of a name: the one
    /// configured for the prefix, else the segment separator, else `_`.
    pub open spec fn effective_prefix_separator(self) -> Seq<char> {
        match (self.prefix_separator, self.separator) {
            (Some(pre), _) => pre,
            (None, Some(sep)) => sep,
            (None, None) => default_separator(),
        }
    }

    /// The separator between the rest of a name and the suffix: the one
    /// configured for the suffix, else the segment separator, else `_`.
    pub open spec fn effective_suffix_separator(self) -> Seq<char> {
        match (self.suffix_separator, self.separator) {
            (Some(suf), _) => suf,
            (None, Some(sep)) => sep,
            (None, None) => default_separator(),
        }
    }

    /// The suffix: the one configured, else `FILE`.
    pub open spec fn effective_suffix(self) -> Seq<char> {
        match self.suffix {
            Some(suf) => suf,
            None => default_suffix(),
        }
    }

    /// The lower-cased prefix followed by its separator, where a prefix is
    /// configured.
    pub open spec fn prefix_pattern(self) -> Option<Seq<char>> {
        match self.prefix {
            Some(pre) => Some(lowercase(pre + self.effective_prefix_separator())),
            None => None,
        }
    }

    /// The lower-cased suffix preceded by its separator.
    pub open spec fn suffix_pattern(self) -> Seq<char> {
        lowercase(self.effective_suffix_separator() + self.effective_suffix())
    }

    /// The lower-cased name that alone designates a document for the root.
    /// With a prefix it is prefix, separator and suffix where both separators
    /// agree, and prefix and suffix with nothing between them where they
    /// differ; without a prefix it is the suffix.
    pub open spec fn full_pattern(self) -> Seq<char> {
        match self.prefix {
            Some(pre) => if self.effective_prefix_separator()
                == self.effective_suffix_separator() {
                lowercase(pre + self.effective_prefix_separator() + self.effective_suffix())
            } else {
                lowercase(pre + self.effective_suffix())
            },
            None => lowercase(self.effective_suffix()),
        }
    }

    /// All patterns that follow from the configuration.
    pub open spec fn patterns(self) -> DerivedPatterns {
        DerivedPatterns {
            prefix: self.prefix_pattern(),
            suffix: self.suffix_pattern(),
            full: self.full_pattern(),
            separator: self.segment_separator(),
            keep_prefix: self.keep_prefix,
        }
    }
}

/// The keys under a configuration that sets a prefix and nothing else but,
/// perhaps, `keep_prefix`.
///
/// The prefix pattern is the lower-cased prefix and `_`, the suffix pattern
/// the lower-cased `_FILE`, and no separator is translated. A variable with
/// a value, whose lower-cased name is the prefix pattern, then `middle`, then
/// the suffix pattern, and is not the full pattern, has its document attached
/// under `middle`, or, where the prefix is kept, under the prefix pattern
/// followed by `middle`.
pub proof fn lemma_prefix_only_key(
    s: Settings,
    name: Seq<char>,
    value: Seq<char>,
    middle: Seq<char>,
)
    requires
        s.prefix is Some,
        s.prefix_separator is None,
        s.suffix is None,
        s.suffix_separator is None,
        s.separator is None,
        value.len() > 0,
        lowercase(name) == lowercase(s.prefix->Some_0 + seq!['_']) + middle + lowercase(
            seq!['_', 'F', 'I', 'L', 'E'],
        ),
        lowercase(name) != lowercase(s.prefix->Some_0 + seq!['_', 'F', 'I', 'L', 'E']),
    ensures
        s.patterns().prefix == Some(lowercase(s.prefix->Some_0 + seq!['_'])),
        s.patterns().suffix == lowercase(seq!['_', 'F', 'I', 'L', 'E']),
        s.patterns().full == lowercase(s.prefix->Some_0 + seq!['_', 'F', 'I', 'L', 'E']),
        classify(s.patterns(), name, value) == Some(
            Placement::Key(
                if s.keep_prefix {
                    lowercase(s.prefix->Some_0 + seq!['_']) + middle
                } else {
                    middle
                },
            ),
        ),
{
    let pre = s.prefix->Some_0;
    assert(default_separator() + default_suffix() =~= seq!['_', 'F', 'I', 'L', 'E']);
    assert(pre + default_separator() + default_suffix() =~= pre + seq!['_', 'F', 'I', 'L', 'E']);
    lemma_key_between_prefix_and_suffix(s.patterns(), middle);
}

/// The view of an optional string.
pub open spec fn text_of(s: Option<String>) -> Option<Seq<char>> {
    match s {
        Some(t) => Some(t@),
        None => None,
    }
}

/// Which environment variables point to secret files, and how the keys of
/// the loaded documents are derived from their names.
#[derive(Debug)]
pub struct EnvironmentSecretFile {
    /// Limits the source to names that begin with this prefix and its
    /// separator.
    prefix: Option<String>,
    /// Separates the prefix from the rest of a name.
    prefix_separator: Option<String>,
    /// Limits the source to names that end with this suffix and its
    /// separator.
    suffix: Option<String>,
    /// Separates the rest of a name from the suffix.
    suffix_separator: Option<String>,
    /// Separates the segments of a name; each occurrence becomes a dot.
    separator: Option<String>,
    /// Keeps a matched prefix in the derived key.
    keep_prefix: bool,
}

impl View for EnvironmentSecretFile {
    type V = Settings;

    closed spec fn view(&self) -> Settings {
        Settings {
            prefix: text_of(self.prefix),
            prefix_separator: text_of(self.prefix_separator),
            suffix: text_of(self.suffix),
            suffix_separator: text_of(self.suffix_separator),
            separator: text_of(self.separator),
            keep_prefix: self.keep_prefix,
        }
    }
}

impl Default for EnvironmentSecretFile {
    fn default() -> (r: Self)
        ensures
            r@ == Settings::unset(),
    {
        EnvironmentSecretFile {
            prefix: None,
            prefix_separator: None,
            suffix: None,
            suffix_separator: None,
            separator: None,
            keep_prefix: false,
        }
    }
}

impl Clone for EnvironmentSecretFile {
    fn clone(&self) -> (r: Self)
        ensures
            r@ == self@,
    {
        EnvironmentSecretFile {
            prefix: copy_of(&self.prefix),
            prefix_separator: copy_of(&self.prefix_separator),
            suffix: copy_of(&self.suffix),
            suffix_separator: copy_of(&self.suffix_separator),
            separator: copy_of(&self.separator),
            keep_prefix: self.keep_prefix,
        }
    }
}

fn copy_of(s: &Option<String>) -> (r: Option<String>)
    ensures
        text_of(r) == text_of(*s),
{
    match s {
        Some(t) => Some(t.clone()),
        None => None,
    }
}

fn chars_or(s: &Option<String>, fallback: Vec<char>) -> (r: Vec<char>)
    ensures
        r@ == match text_of(*s) {
            Some(t) => t,
            None => fallback@,
        },
{
    match s {
        Some(t) => chars_of(t.as_str()),
        None => fallback,
    }
}

impl EnvironmentSecretFile {
    /// A configuration with the given prefix and nothing else set.
    pub fn with_prefix(s: &str) -> (r: Self)
        ensures
            r@ == (Settings { prefix: Some(s@), ..Settings::unset() }),
    {
        EnvironmentSecretFile {
            prefix: Some(s.to_owned()),
            prefix_separator: None,
            suffix: None,
            suffix_separator: None,
            separator: None,
            keep_prefix: false,
        }
    }

    /// Sets the prefix that a name must begin with.
    pub fn prefix(self, s: &str) -> (r: Self)
        ensures
            r@ == (Settings { prefix: Some(s@), ..self@ }),
    {
        let mut this = self;
        this.prefix = Some(s.to_owned());
        this
    }

    /// Sets the separator between the prefix and the rest of a name.
    pub fn prefix_separator(self, s: &str) -> (r: Self)
        ensures
            r@ == (Settings { prefix_separator: Some(s@), ..self@ }),
    {
        let mut this = self;
        this.prefix_separator = Some(s.to_owned());
        this
    }

    /// Sets the suffix that a name must end with.
    pub fn suffix(self, s: &str) -> (r: Self)
        ensures
            r@ == (Settings { suffix: Some(s@), ..self@ }),
    {
        let mut this = self;
        this.suffix = Some(s.to_owned());
        this
    }

    /// Sets the separator between the rest of a name and the suffix.
    pub fn suffix_separator(self, s: &str) -> (r: Self)
        ensures
            r@ == (Settings { suffix_separator: Some(s@), ..self@ }),
    {
        let mut this = self;
        this.suffix_separator = Some(s.to_owned());
        this
    }

    /// Sets the segment separator, which also serves around prefix and
    /// suffix unless those have separators of their own.
    pub fn separator(self, s: &str) -> (r: Self)
        ensures
            r@ == (Settings { separator: Some(s@), ..self@ }),
    {
        let mut this = self;
        this.separator = Some(s.to_owned());
        this
    }

    /// Chooses whether a matched prefix stays in the derived key.
    pub fn keep_prefix(self, keep: bool) -> (r: Self)
        ensures
            r@ == (Settings { keep_prefix: keep, ..self@ }),
    {
        let mut this = self;
        this.keep_prefix = keep;
        this
    }

    /// Computes the patterns that variable names are held against.
    pub fn patterns(&self) -> (p: Patterns)
        ensures
            p@ == self@.patterns(),
    {
        let mut underscore: Vec<char> = Vec::new();
        underscore.push('_');
        assert(underscore@ =~= default_separator());
        let mut file: Vec<char> = Vec::new();
        file.push('F');
        file.push('I');
        file.push('L');
        file.push('E');
        assert(file@ =~= default_suffix());

        let separator = chars_or(&self.separator, Vec::new());
        let shared = chars_or(&self.separator, underscore);
        let suffix_separator = chars_or(&self.suffix_separator, shared.clone());
        let prefix_separator = chars_or(&self.prefix_separator, shared);
        let suffix = chars_or(&self.suffix, file);

        let prefix_pattern = match &self.prefix {
            Some(pre) => Some(lowered(&concat(&chars_of(pre.as_str()), &prefix_separator))),
            None => None,
        };
        let suffix_pattern = lowered(&concat(&suffix_separator, &suffix));
        let full_pattern = match &self.prefix {
            Some(pre) => {
                let head = if equal(&prefix_separator, &suffix_separator) {
                    concat(&chars_of(pre.as_str()), &prefix_separator)
                } else {
                    chars_of(pre.as_str())
                };
                lowered(&concat(&head, &suffix))
            },
            None => lowered(&suffix),
        };
        Patterns::assemble(prefix_pattern, suffix_pattern, full_pattern, separator, self.keep_prefix)
    }
}

} // verus!
