//! Per-extension configuration records, and how the records found in the
//! configuration directories merge: the first one seen for a name wins.

use vstd::prelude::*;

use crate::text::str_eq;

verus! {

/// Which image of an extension activation selects. Only the newest compatible
/// image (`latest`) is defined.
#[derive(Debug, Clone, Copy, PartialEq, Eq, Structural)]
pub enum Policy {
    Latest,
}

/// The textual form of a policy in configuration files.
pub open spec fn policy_name(p: Policy) -> Seq<char> {
    match p {
        Policy::Latest => "latest"@,
    }
}

impl Policy {
    /// Decodes the `Kind` value of a configuration file.
    pub fn from_name(kind: &str) -> (r: Option<Policy>)
        ensures
            r == (if kind@ == "latest"@ {
                Some(Policy::Latest)
            } else {
                None
            }),
    {
        if str_eq(kind, "latest") {
            Some(Policy::Latest)
        } else {
            None
        }
    }

    /// The textual form of this policy.
    pub fn to_string(&self) -> (r: String)
        ensures
            r@ == policy_name(*self),
    {
        match self {
            Policy::Latest => String::from_str("latest"),
        }
    }
}

/// Why a configuration record is refused.
#[derive(Debug, Clone, Copy, PartialEq, Eq, Structural)]
pub enum ConfigError {
    /// The `Kind` value names no known activation policy.
    UnknownKind,
}

/// Where to fetch the images of one extension, and how to activate them.
#[allow(non_snake_case)]
#[derive(Debug)]
pub struct Config {
    pub Name: String,
    pub Kind: Policy,
    pub Url: String,
}

/// The mathematical value of a configuration record.
pub struct ConfigView {
    pub name: Seq<char>,
    pub kind: Policy,
    pub url: Seq<char>,
}

impl View for Config {
    type V = ConfigView;

    open spec fn view(&self) -> ConfigView {
        ConfigView { name: self.Name@, kind: self.Kind, url: self.Url@ }
    }
}

impl Clone for Config {
    fn clone(&self) -> (r: Config)
        ensures
            r@ == self@,
    {
        Config { Name: self.Name.clone(), Kind: self.Kind, Url: self.Url.clone() }
    }
}

impl Config {
    /// A configuration record from its three fields; the kind must name a policy.
    pub fn new(name: &str, kind: &str, url: &str) -> (r: Result<Config, ConfigError>)
        ensures
            kind@ == "latest"@ <==> r is Ok,
            r is Err ==> r == Err::<Config, ConfigError>(ConfigError::UnknownKind),
            r matches Ok(c) ==> c@ == (ConfigView { name: name@, kind: Policy::Latest, url: url@ }),
    {
        match Policy::from_name(kind) {
            Some(p) => Ok(Config { Name: name.to_owned(), Kind: p, Url: url.to_owned() }),
            None => Err(ConfigError::UnknownKind),
        }
    }
}

/// The configuration loaded for `name`: the first record with that name.
pub open spec fn config_of(cs: Seq<ConfigView>, name: Seq<char>) -> Option<ConfigView>
    decreases cs.len(),
{
    if cs.len() == 0 {
        None
    } else {
        match config_of(cs.drop_last(), name) {
            Some(c) => Some(c),
            None => if cs.last().name == name {
                Some(cs.last())
            } else {
                None
            },
        }
    }
}

/// Once a prefix names a configuration, longer sequences keep it.
pub proof fn lemma_config_of_prefix(cs: Seq<ConfigView>, name: Seq<char>, k: int)
    requires
        0 <= k <= cs.len(),
        config_of(cs.take(k), name) is Some,
    ensures
        config_of(cs, name) == config_of(cs.take(k), name),
    decreases cs.len(),
{
    if k == cs.len() {
        assert(cs.take(k) =~= cs);
    } else {
        assert(cs.drop_last().take(k) =~= cs.take(k));
        lemma_config_of_prefix(cs.drop_last(), name, k);
    }
}

/// No configuration is found for a name exactly when no record carries it.
pub proof fn lemma_config_of_none(cs: Seq<ConfigView>, name: Seq<char>)
    ensures
        config_of(cs, name) is None <==> forall|k: int| 0 <= k < cs.len() ==> cs[k].name != name,
        config_of(cs, name) matches Some(c) ==> exists|k: int| 0 <= k < cs.len() && cs[k] == c && c.name == name,
    decreases cs.len(),
{
    if cs.len() > 0 {
        lemma_config_of_none(cs.drop_last(), name);
        if config_of(cs.drop_last(), name) is None {
            assert forall|k: int| 0 <= k < cs.len() - 1 implies cs[k].name != name by {
                assert(cs.drop_last()[k] == cs[k]);
            }
        } else {
            let c = config_of(cs.drop_last(), name)->Some_0;
            let k = choose|k: int| 0 <= k < cs.len() - 1 && cs.drop_last()[k] == c && c.name == name;
            assert(cs[k] == c);
        }
    }
}

/// Merges configurations found in priority order into `existing`: the first record
/// seen for a name wins, later ones are discarded.
pub open spec fn merge_configs(existing: Seq<ConfigView>, found: Seq<ConfigView>) -> Seq<ConfigView>
    decreases found.len(),
{
    if found.len() == 0 {
        existing
    } else {
        let m = merge_configs(existing, found.drop_last());
        if config_of(m, found.last().name) is Some {
            m
        } else {
            m.push(found.last())
        }
    }
}

/// No two configurations share a name.
pub open spec fn unique_names(cs: Seq<ConfigView>) -> bool {
    forall|i: int, j: int| 0 <= i < j < cs.len() ==> cs[i].name != cs[j].name
}

pub open spec fn configs_view(cs: Seq<Config>) -> Seq<ConfigView> {
    cs.map_values(|c: Config| c@)
}

/// Filtering keeps names unique.
pub proof fn lemma_filter_unique(cs: Seq<ConfigView>, p: spec_fn(ConfigView) -> bool)
    requires
        unique_names(cs),
    ensures
        unique_names(cs.filter(p)),
    decreases cs.len(),
{
    reveal(Seq::filter);
    if cs.len() > 0 {
        let d = cs.drop_last();
        assert(unique_names(d)) by {
            assert forall|i: int, j: int| 0 <= i < j < d.len() implies d[i].name != d[j].name by {
                assert(d[i] == cs[i] && d[j] == cs[j]);
            }
        }
        lemma_filter_unique(d, p);
        let fd = d.filter(p);
        if p(cs.last()) {
            assert forall|a: int| 0 <= a < fd.len() implies fd[a].name != cs.last().name by {
                assert(fd.contains(fd[a]));
                d.lemma_filter_contains_rev(p, fd[a]);
                let k = choose|k: int| 0 <= k < d.len() && d[k] == fd[a];
                assert(cs[k] == d[k]);
            }
            assert(cs.filter(p) == fd.push(cs.last()));
        }
    }
}

/// Merging keeps what was loaded before as a prefix.
pub proof fn lemma_merge_keeps(existing: Seq<ConfigView>, found: Seq<ConfigView>)
    ensures
        merge_configs(existing, found).len() >= existing.len(),
        merge_configs(existing, found).take(existing.len() as int) == existing,
    decreases found.len(),
{
    if found.len() > 0 {
        lemma_merge_keeps(existing, found.drop_last());
        let m = merge_configs(existing, found.drop_last());
        assert(m.push(found.last()).take(existing.len() as int) =~= m.take(existing.len() as int));
    }
}

/// Merging two batches in turn is merging them at once.
pub proof fn lemma_merge_concat(existing: Seq<ConfigView>, s: Seq<ConfigView>, t: Seq<ConfigView>)
    ensures
        merge_configs(existing, s + t) == merge_configs(merge_configs(existing, s), t),
    decreases t.len(),
{
    if t.len() == 0 {
        assert(s + t =~= s);
    } else {
        assert((s + t).drop_last() =~= s + t.drop_last());
        lemma_merge_concat(existing, s, t.drop_last());
    }
}

/// A name the merge knows comes from what was loaded before or from a record found.
pub proof fn lemma_merge_names(existing: Seq<ConfigView>, found: Seq<ConfigView>, n: Seq<char>)
    requires
        config_of(existing, n) is None,
        forall|k: int| 0 <= k < found.len() ==> found[k].name != n,
    ensures
        config_of(merge_configs(existing, found), n) is None,
    decreases found.len(),
{
    if found.len() > 0 {
        let d = found.drop_last();
        assert forall|k: int| 0 <= k < d.len() implies d[k].name != n by {
            assert(d[k] == found[k]);
        }
        lemma_merge_names(existing, d, n);
        let m = merge_configs(existing, d);
        assert(m.push(found.last()).drop_last() =~= m);
    }
}

/// The configuration observed for a name is the first record found for it: a
/// record in a higher-priority directory wins over any later one.
pub proof fn lemma_first_record_wins(before: Seq<ConfigView>, c: ConfigView, after: Seq<ConfigView>)
    requires
        forall|k: int| 0 <= k < before.len() ==> before[k].name != c.name,
    ensures
        config_of(merge_configs(Seq::empty(), before.push(c) + after), c.name) == Some(c),
{
    let m = merge_configs(Seq::<ConfigView>::empty(), before);
    lemma_merge_names(Seq::empty(), before, c.name);
    assert(before.push(c).drop_last() =~= before);
    let mc = merge_configs(Seq::<ConfigView>::empty(), before.push(c));
    assert(mc == m.push(c));
    assert(m.push(c).drop_last() =~= m);
    assert(config_of(mc, c.name) == Some(c));
    lemma_merge_concat(Seq::empty(), before.push(c), after);
    lemma_merge_keeps(mc, after);
    let full = merge_configs(mc, after);
    lemma_config_of_prefix(full, c.name, mc.len() as int);
}

/// Adding `name` with the `latest` policy and `url`, then loading afresh, observes
/// exactly that record, unless an earlier file of the same directory claims the name.
pub proof fn lemma_added_config_is_loaded(
    name: Seq<char>,
    url: Seq<char>,
    before: Seq<ConfigView>,
    after: Seq<ConfigView>,
)
    requires
        forall|k: int| 0 <= k < before.len() ==> before[k].name != name,
    ensures
        config_of(
            merge_configs(Seq::empty(), before.push(ConfigView { name, kind: Policy::Latest, url }) + after),
            name,
        ) == Some(ConfigView { name, kind: Policy::Latest, url }),
{
    lemma_first_record_wins(before, ConfigView { name, kind: Policy::Latest, url }, after);
}

} // verus!
