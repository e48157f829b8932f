//! One collection pass: the variables of an environment are looked at in
//! turn, the caller loads the document of each variable that asks for one,
//! and the outcomes are gathered into one tree or end in the first failure.

use crate::pattern::{
    bracketed, classify, key_of, lemma_key_between_prefix_and_suffix, DerivedPatterns, Patterns,
    Placement, Target,
};
use crate::secret::EnvironmentSecretFile;
use crate::text::lowercase;
use crate::tree::{tagged_table, value_origin, value_table, Tree};
use config::ConfigError;
use config::Value;
use vstd::prelude::*;
use vstd::string::StringExecFns;

verus! {

/// The error with which the `config` crate reports a document that could not
/// be loaded. It is handed on as it came.
#[verifier::external_type_specification]
#[verifier::external_body]
pub struct ExConfigError(ConfigError);

/// A tree of values by key, as contracts speak of it.
pub type Entries = Map<Seq<char>, Value>;

/// What a pass has come to: the tree gathered so far, or the first failure.
pub type Standing = Result<Entries, ConfigError>;

/// The origin annotation of a document attached under `key` and loaded from
/// `path`: `secret:<key>:<path>`.
pub open spec fn origin_of(key: Seq<char>, path: Seq<char>) -> Seq<char> {
    seq!['s', 'e', 'c', 'r', 'e', 't', ':'] + key + seq![':'] + path
}

/// Whether `v` is the table that wraps the document `loaded`, attached under
/// `key` and loaded from `path`.
pub open spec fn is_secret_table(v: Value, key: Seq<char>, path: Seq<char>, loaded: Entries) -> bool {
    &&& value_origin(v) == Some(origin_of(key, path))
    &&& value_table(v) == Some(loaded)
}

/// What a load came to, with a loaded tree taken by its view.
pub open spec fn outcome_of(outcome: Result<Tree, ConfigError>) -> Standing {
    match outcome {
        Ok(tree) => Ok(tree@),
        Err(e) => Err(e),
    }
}

/// Whether `after` is `before` with the outcome of one load recorded.
///
/// A pass that has failed stays as it is. A failed load ends the pass with
/// its error, and the tree gathered so far is gone. A document for the root
/// has its top-level keys merged in, each replacing what stood under it. A
/// document for a key is attached under that key as a table with its origin
/// annotation, replacing what stood there.
pub open spec fn recorded(
    before: Standing,
    placement: Placement,
    path: Seq<char>,
    outcome: Standing,
    after: Standing,
) -> bool {
    match before {
        Err(_) => after == before,
        Ok(tree) => match outcome {
            Err(e) => after == Err::<Entries, ConfigError>(e),
            Ok(loaded) => match placement {
                Placement::Root => after == Ok::<Entries, ConfigError>(
                    tree.union_prefer_right(loaded),
                ),
                Placement::Key(key) => {
                    &&& after is Ok
                    &&& after->Ok_0 == tree.insert(key, after->Ok_0[key])
                    &&& is_secret_table(after->Ok_0[key], key, path, loaded)
                },
            },
        },
    }
}

/// One variable of the environment, together with what loading the document
/// at its value comes to, should the pass ask for it.
pub struct Observation {
    pub name: Seq<char>,
    pub value: Seq<char>,
    pub outcome: Standing,
}

/// Whether `after` is what a pass standing at `before` comes to by looking
/// at one variable: unchanged where the variable asks for nothing, else with
/// the outcome of its load recorded.
pub open spec fn stepped(p: DerivedPatterns, before: Standing, o: Observation, after: Standing) -> bool {
    match classify(p, o.name, o.value) {
        Some(placement) => recorded(before, placement, o.value, o.outcome, after),
        None => after == before,
    }
}

/// Whether `standings` are the successive standings of a whole pass over the
/// variables `seen`, from the empty tree on: one more standing than
/// variables, each following from the one before by a step.
pub open spec fn is_pass(p: DerivedPatterns, seen: Seq<Observation>, standings: Seq<Standing>) -> bool {
    &&& standings.len() == seen.len() + 1
    &&& standings[0] == Ok::<Entries, ConfigError>(Map::empty())
    &&& forall|i: int|
        0 <= i < seen.len() ==> stepped(p, standings[i], #[trigger] seen[i], standings[i + 1])
}

/// Whether a pass standing at `before` asks for the document of `o`.
pub open spec fn asks(p: DerivedPatterns, before: Standing, o: Observation) -> bool {
    before is Ok && classify(p, o.name, o.value) is Some
}

/// Whether `outcome` is something that `load` may answer for the path `path`.
pub open spec fn answered<L: Fn(&str) -> Result<Tree, ConfigError>>(
    load: L,
    path: Seq<char>,
    outcome: Standing,
) -> bool {
    exists|at: &str, given: Result<Tree, ConfigError>|
        at@ == path && load.ensures((at,), given) && outcome_of(given) == outcome
}

/// Whether `load` answers every path with a document.
pub open spec fn never_fails<L: Fn(&str) -> Result<Tree, ConfigError>>(load: L) -> bool {
    forall|at: &str, given: Result<Tree, ConfigError>| load.ensures((at,), given) ==> given is Ok
}

/// Whether `seen` and `standings` tell of a pass over the variables `vars`
/// in their order, in which every document that the pass asked for was
/// answered by `load` for the variable's value.
pub open spec fn is_pass_over<L: Fn(&str) -> Result<Tree, ConfigError>>(
    p: DerivedPatterns,
    vars: Seq<(String, String)>,
    load: L,
    seen: Seq<Observation>,
    standings: Seq<Standing>,
) -> bool {
    &&& is_pass(p, seen, standings)
    &&& seen.len() == vars.len()
    &&& forall|i: int|
        0 <= i < vars.len() ==> {
            &&& (#[trigger] seen[i]).name == vars[i].0@
            &&& seen[i].value == vars[i].1@
            &&& asks(p, standings[i], seen[i]) ==> answered(load, seen[i].value, seen[i].outcome)
        }
}

/// The origin annotation for `key` and `path`.
pub fn origin_for(key: &str, path: &str) -> (r: String)
    ensures
        r@ == origin_of(key@, path@),
{
    proof {
        reveal_strlit("secret:");
        reveal_strlit(":");
    }
    let mut r = String::from_str("secret:");
    r.append(key);
    r.append(":");
    r.append(path);
    assert(r@ =~= origin_of(key@, path@));
    r
}

/// The state of one collection pass.
#[derive(Debug)]
pub struct Collector {
    patterns: Patterns,
    tree: Tree,
    failure: Option<ConfigError>,
}

impl Collector {
    /// The patterns that the pass holds variable names against.
    pub closed spec fn patterns(&self) -> DerivedPatterns {
        self.patterns@
    }

    /// What the pass has come to.
    pub closed spec fn standing(&self) -> Standing {
        match self.failure {
            Some(e) => Err(e),
            None => Ok(self.tree@),
        }
    }

    /// A pass over `patterns` that has seen nothing yet.
    pub fn new(patterns: Patterns) -> (c: Self)
        ensures
            c.patterns() == patterns@,
            c.standing() == Ok::<Entries, ConfigError>(Map::empty()),
    {
        Collector { patterns, tree: Tree::new(), failure: None }
    }

    /// Says whether the document of the variable `name` with the value
    /// `value` is to be loaded, and where it goes. After a failure nothing
    /// more is loaded.
    pub fn decide(&self, name: &str, value: &str) -> (r: Option<Target>)
        ensures
            match r {
                Some(t) => self.standing() is Ok && classify(self.patterns(), name@, value@)
                    == Some(t@),
                None => self.standing() is Err || classify(self.patterns(), name@, value@)
                    is None,
            },
    {
        if self.failure.is_some() {
            None
        } else {
            self.patterns.classify(name, value)
        }
    }

    /// Records what loading the document at `path` for `target` came to.
    pub fn record(&mut self, target: Target, path: &str, outcome: Result<Tree, ConfigError>)
        ensures
            final(self).patterns() == old(self).patterns(),
            recorded(
                old(self).standing(),
                target@,
                path@,
                outcome_of(outcome),
                final(self).standing(),
            ),
    {
        if self.failure.is_some() {
            return ;
        }
        match outcome {
            Err(e) => {
                self.failure = Some(e);
            },
            Ok(loaded) => match target {
                Target::Root => {
                    self.tree.merge(loaded);
                },
                Target::Key(key) => {
                    let origin = origin_for(key.as_str(), path);
                    let table = tagged_table(&origin, loaded);
                    self.tree.insert(key, table);
                    assert(self.tree@[key@] == table);
                },
            },
        }
    }

    /// Ends the pass: the tree, if no load failed, else the first failure.
    pub fn finish(self) -> (r: Result<Tree, ConfigError>)
        ensures
            outcome_of(r) == self.standing(),
    {
        match self.failure {
            Some(e) => Err(e),
            None => Ok(self.tree),
        }
    }
}

impl EnvironmentSecretFile {
    /// Starts a collection pass under this configuration.
    pub fn collector(&self) -> (c: Collector)
        ensures
            c.patterns() == self@.patterns(),
            c.standing() == Ok::<Entries, ConfigError>(Map::empty()),
    {
        Collector::new(self.patterns())
    }

    /// Runs a whole pass over the variables `vars`, given as pairs of name
    /// and value, in their order. `load` is called with the value of each
    /// variable that asks for a document, and with no other; after the first
    /// failure it is not called again. The result is the tree that the pass
    /// gathered, or the first failure.
    pub fn collect_with<L: Fn(&str) -> Result<Tree, ConfigError>>(
        &self,
        vars: &Vec<(String, String)>,
        load: L,
    ) -> (r: Result<Tree, ConfigError>)
        requires
            forall|path: &str| load.requires((path,)),
        ensures
            exists|seen: Seq<Observation>, standings: Seq<Standing>|
                is_pass_over(self@.patterns(), vars@, load, seen, standings) && outcome_of(r)
                    == standings.last(),
            never_fails(load) ==> r is Ok,
    {
        let mut collector = self.collector();
        let ghost p = self@.patterns();
        let ghost mut seen: Seq<Observation> = Seq::empty();
        let ghost mut standings: Seq<Standing> = seq![collector.standing()];
        let mut i: usize = 0;
        while i < vars.len()
            invariant
                i <= vars.len(),
                forall|path: &str| load.requires((path,)),
                collector.patterns() == p,
                seen.len() == i,
                standings.len() == i + 1,
                standings[0] == Ok::<Entries, ConfigError>(Map::empty()),
                standings.last() == collector.standing(),
                never_fails(load) ==> collector.standing() is Ok,
                forall|k: int|
                    0 <= k < i ==> stepped(p, standings[k], #[trigger] seen[k], standings[k + 1]),
                forall|k: int|
                    0 <= k < i ==> {
                        &&& (#[trigger] seen[k]).name == vars[k].0@
                        &&& seen[k].value == vars[k].1@
                        &&& asks(p, standings[k], seen[k]) ==> answered(
                            load,
                            seen[k].value,
                            seen[k].outcome,
                        )
                    },
            decreases vars.len() - i,
        {
            let name = vars[i].0.as_str();
            let value = vars[i].1.as_str();
            let ghost before = collector.standing();
            let ghost mut outcome: Standing = Ok(Map::empty());
            match collector.decide(name, value) {
                Some(target) => {
                    let given = load(value);
                    proof {
                        outcome = outcome_of(given);
                        assert(answered(load, value@, outcome));
                    }
                    collector.record(target, value, given);
                },
                None => {},
            }
            proof {
                let o = Observation { name: name@, value: value@, outcome };
                let ghost earlier = standings;
                let ghost sofar = seen;
                seen = seen.push(o);
                standings = standings.push(collector.standing());
                assert(stepped(p, before, o, collector.standing()));
                assert forall|k: int| 0 <= k < i + 1 implies stepped(
                    p,
                    standings[k],
                    #[trigger] seen[k],
                    standings[k + 1],
                ) by {
                    if k < i {
                        assert(stepped(p, earlier[k], sofar[k], earlier[k + 1]));
                    }
                }
            }
            i += 1;
        }
        assert(is_pass_over(p, vars@, load, seen, standings));
        collector.finish()
    }
}

/// A variable with an empty value leaves the pass as it stands, whatever its
/// name: it never brings a key into the tree.
pub proof fn lemma_empty_value_changes_nothing(
    p: DerivedPatterns,
    before: Standing,
    o: Observation,
    after: Standing,
)
    requires
        o.value.len() == 0,
        stepped(p, before, o, after),
    ensures
        after == before,
{
}

/// A variable whose lower-cased name is the full pattern has the top-level
/// keys of its document merged into the tree directly: each stands in the
/// tree with the value that the document gives it, and the other keys of the
/// tree stay as they were.
pub proof fn lemma_full_pattern_merges_at_root(
    p: DerivedPatterns,
    tree: Entries,
    o: Observation,
    after: Standing,
)
    requires
        lowercase(o.name) == p.full,
        o.value.len() > 0,
        o.outcome is Ok,
        stepped(p, Ok(tree), o, after),
    ensures
        after is Ok,
        forall|k: Seq<char>| #[trigger]
            o.outcome->Ok_0.contains_key(k) ==> after->Ok_0.contains_key(k) && after->Ok_0[k]
                == o.outcome->Ok_0[k],
        forall|k: Seq<char>|
            !o.outcome->Ok_0.contains_key(k) ==> (#[trigger] after->Ok_0.contains_key(k)
                == tree.contains_key(k)) && (tree.contains_key(k) ==> after->Ok_0[k] == tree[k]),
{
}

/// A variable whose lower-cased name is the prefix pattern (nothing, where
/// no prefix is configured), then `middle`, then the suffix pattern, and is
/// not the full pattern, has its document attached as one table. The key is
/// the translation of `middle`, with the prefix pattern in front of it where
/// the prefix is kept; the table holds the document and carries the origin
/// made of key and path. The other keys of the tree stay as they were.
pub proof fn lemma_bracketed_name_attaches_table(
    p: DerivedPatterns,
    tree: Entries,
    o: Observation,
    middle: Seq<char>,
    after: Standing,
)
    requires
        o.value.len() > 0,
        o.outcome is Ok,
        lowercase(o.name) != p.full,
        lowercase(o.name) == bracketed(p, middle),
        stepped(p, Ok(tree), o, after),
    ensures
        after is Ok,
        after->Ok_0.contains_key(key_of(p, middle)),
        is_secret_table(after->Ok_0[key_of(p, middle)], key_of(p, middle), o.value, o.outcome->Ok_0),
        forall|k: Seq<char>|
            k != key_of(p, middle) ==> (#[trigger] after->Ok_0.contains_key(k)
                == tree.contains_key(k)) && (tree.contains_key(k) ==> after->Ok_0[k] == tree[k]),
{
    lemma_key_between_prefix_and_suffix(p, middle);
}

/// Once a pass has failed it stays at that failure.
pub proof fn lemma_failure_is_final(
    p: DerivedPatterns,
    seen: Seq<Observation>,
    standings: Seq<Standing>,
    i: int,
    j: int,
)
    requires
        is_pass(p, seen, standings),
        0 <= i <= j <= seen.len(),
        standings[i] is Err,
    ensures
        standings[j] == standings[i],
    decreases j - i,
{
    if i < j {
        lemma_failure_is_final(p, seen, standings, i, j - 1);
        assert(stepped(p, standings[j - 1], seen[j - 1], standings[j - 1 + 1]));
    }
}

/// One failed load fails the whole pass: where a pass that has not failed
/// asks for the document of a variable and the load fails, the pass ends
/// with that error, whatever came before and whatever comes after. No tree
/// is left.
pub proof fn lemma_failed_load_fails_the_pass(
    p: DerivedPatterns,
    seen: Seq<Observation>,
    standings: Seq<Standing>,
    i: int,
)
    requires
        is_pass(p, seen, standings),
        0 <= i < seen.len(),
        standings[i] is Ok,
        classify(p, seen[i].name, seen[i].value) is Some,
        seen[i].outcome is Err,
    ensures
        standings.last() == Err::<Entries, ConfigError>(seen[i].outcome->Err_0),
{
    assert(stepped(p, standings[i], seen[i], standings[i + 1]));
    lemma_failure_is_final(p, seen, standings, i + 1, seen.len() as int);
}

/// A pass ends with a tree exactly where no load that it asked for failed.
pub proof fn lemma_pass_succeeds_unless_a_load_fails(
    p: DerivedPatterns,
    seen: Seq<Observation>,
    standings: Seq<Standing>,
)
    requires
        is_pass(p, seen, standings),
    ensures
        standings.last() is Err <==> exists|i: int|
            0 <= i < seen.len() && standings[i] is Ok && classify(
                p,
                (#[trigger] seen[i]).name,
                seen[i].value,
            ) is Some && seen[i].outcome is Err,
    decreases seen.len(),
{
    if seen.len() > 0 {
        let n = seen.len() - 1;
        let front = seen.drop_last();
        let earlier = standings.drop_last();
        assert(is_pass(p, front, earlier)) by {
            assert forall|i: int| 0 <= i < front.len() implies stepped(
                p,
                earlier[i],
                #[trigger] front[i],
                earlier[i + 1],
            ) by {
                assert(stepped(p, standings[i], seen[i], standings[i + 1]));
            }
        }
        lemma_pass_succeeds_unless_a_load_fails(p, front, earlier);
        assert(stepped(p, standings[n], seen[n], standings[n + 1]));
        if standings.last() is Err {
            if standings[n] is Err {
                let i = choose|i: int|
                    0 <= i < front.len() && earlier[i] is Ok && classify(
                        p,
                        (#[trigger] front[i]).name,
                        front[i].value,
                    ) is Some && front[i].outcome is Err;
                assert(seen[i] == front[i]);
            } else {
                assert(classify(p, seen[n].name, seen[n].value) is Some);
            }
        }
        if exists|i: int|
            0 <= i < seen.len() && standings[i] is Ok && classify(
                p,
                (#[trigger] seen[i]).name,
                seen[i].value,
            ) is Some && seen[i].outcome is Err {
            let i = choose|i: int|
                0 <= i < seen.len() && standings[i] is Ok && classify(
                    p,
                    (#[trigger] seen[i]).name,
                    seen[i].value,
                ) is Some && seen[i].outcome is Err;
            lemma_failed_load_fails_the_pass(p, seen, standings, i);
        }
    }
}

} // verus!
