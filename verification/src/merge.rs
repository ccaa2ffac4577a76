//! Reconciling a configuration table with the table of defaults.
//!
//! The defaults declare every key a configuration may set. A configuration
//! that sets any other key is rejected; otherwise the result has exactly the
//! keys of the defaults, each with the configuration's value where it gives
//! one and with the default's value where it does not.

use crate::error::ConfigError;
use crate::table::{
    as_map, by_text, distinct_keys, find, first_index, has_key, keys, lemma_distinct_first,
    lemma_first_index, value_of,
};
use vstd::prelude::*;

verus! {

/// Entry `i` of `config` is stored under a key that `default` does not declare.
pub open spec fn unknown_at<V>(
    config: Seq<(Seq<char>, V)>,
    default: Seq<(Seq<char>, V)>,
    i: int,
) -> bool {
    0 <= i < config.len() && !has_key(default, config[i].0)
}

/// Entry `i` of `config` is the first one under an undeclared key.
pub open spec fn first_unknown<V>(
    config: Seq<(Seq<char>, V)>,
    default: Seq<(Seq<char>, V)>,
    i: int,
) -> bool {
    &&& unknown_at(config, default, i)
    &&& forall|j: int| 0 <= j < i ==> !unknown_at(config, default, j)
}

/// Every key of `config` is declared by `default`.
pub open spec fn all_declared<V>(config: Seq<(Seq<char>, V)>, default: Seq<(Seq<char>, V)>) -> bool {
    forall|i: int| 0 <= i < config.len() ==> !unknown_at(config, default, i)
}

/// The entries of `default`, each with the value that `config` gives its key
/// where it gives one.
pub open spec fn reconciled<V>(
    config: Seq<(Seq<char>, V)>,
    default: Seq<(Seq<char>, V)>,
) -> Seq<(Seq<char>, V)> {
    Seq::new(
        default.len(),
        |i: int|
            match value_of(config, default[i].0) {
                Some(v) => (default[i].0, v),
                None => default[i],
            },
    )
}

/// The map that reconciliation yields, stated over maps: the keys of
/// `default`, with `config`'s value wherever it has one.
pub open spec fn reconciled_map<V>(
    config: Map<Seq<char>, V>,
    default: Map<Seq<char>, V>,
) -> Map<Seq<char>, V> {
    Map::new(
        |k: Seq<char>| default.dom().contains(k),
        |k: Seq<char>|
            if config.dom().contains(k) {
                config[k]
            } else {
                default[k]
            },
    )
}

/// What merging yields: without defaults the configuration itself, with
/// defaults the reconciled table or the first undeclared key.
pub open spec fn merged<V>(
    config: Seq<(Seq<char>, V)>,
    default: Option<Seq<(Seq<char>, V)>>,
) -> Result<Seq<(Seq<char>, V)>, Seq<char>> {
    match default {
        None => Ok(config),
        Some(d) => if all_declared(config, d) {
            Ok(reconciled(config, d))
        } else {
            Err(config[choose|i: int| first_unknown(config, d, i)].0)
        },
    }
}

/// Checks a configuration against the defaults: `None` when every key is
/// declared, otherwise the position of the first entry whose key is not.
pub fn validate<V>(config: &Vec<(String, V)>, default: &Vec<(String, V)>) -> (unknown: Option<
    usize,
>)
    ensures
        match unknown {
            Some(i) => first_unknown(by_text(config@), by_text(default@), i as int),
            None => all_declared(by_text(config@), by_text(default@)),
        },
{
    let mut i: usize = 0;
    while i < config.len()
        invariant
            i <= config.len(),
            forall|j: int| 0 <= j < i ==> !unknown_at(by_text(config@), by_text(default@), j),
        decreases config.len() - i,
    {
        if find(default, &config[i].0).is_none() {
            return Some(i);
        }
        i += 1;
    }
    None
}

/// Lays the configuration over the defaults.
///
/// Fails with `UnknownConfigKey` naming the first key of `config` that
/// `default` does not declare. Otherwise the result keeps the entries of
/// `default` in their order, and the value of each is the one `config` gives
/// for its key, or the default's own where `config` gives none.
pub fn reconcile<V>(config: Vec<(String, V)>, default: Vec<(String, V)>) -> (result: Result<
    Vec<(String, V)>,
    ConfigError,
>)
    requires
        distinct_keys(by_text(config@)),
        distinct_keys(by_text(default@)),
    ensures
        match result {
            Ok(entries) => {
                &&& all_declared(by_text(config@), by_text(default@))
                &&& by_text(entries@) == reconciled(by_text(config@), by_text(default@))
            },
            Err(error) => {
                &&& error matches ConfigError::UnknownConfigKey(key)
                &&& exists|i: int|
                    first_unknown(by_text(config@), by_text(default@), i) && key@ == by_text(
                        config@,
                    )[i].0
            },
        },
{
    match validate(&config, &default) {
        Some(i) => {
            return Err(ConfigError::UnknownConfigKey(config[i].0.clone()));
        },
        None => {},
    }
    let ghost wanted = by_text(config@);
    let ghost declared = by_text(default@);
    let mut config = config;
    let mut entries = default;
    while config.len() > 0
        invariant
            distinct_keys(wanted),
            distinct_keys(declared),
            all_declared(wanted, declared),
            by_text(config@) == wanted.take(config@.len() as int),
            config@.len() <= wanted.len(),
            by_text(entries@).len() == declared.len(),
            forall|i: int| 0 <= i < declared.len() ==> (#[trigger] by_text(entries@)[i]).0 == declared[i].0,
            forall|i: int, j: int|
                0 <= i < declared.len() && config@.len() <= j < wanted.len() && (
                #[trigger] wanted[j]).0 == declared[i].0 ==> (#[trigger] by_text(entries@)[i]).1
                    == wanted[j].1,
            forall|i: int|
                0 <= i < declared.len() && (forall|j: int|
                    config@.len() <= j < wanted.len() ==> (#[trigger] wanted[j]).0
                        != declared[i].0) ==> (#[trigger] by_text(entries@)[i]).1 == declared[i].1,
        decreases config.len(),
    {
        let ghost n = config@.len() as int;
        let ghost before = by_text(entries@);
        match config.pop() {
            Some((key, value)) => {
                assert(key@ == wanted[n - 1].0 && value == wanted[n - 1].1) by {
                    assert(wanted.take(n)[n - 1] == wanted[n - 1]);
                }
                assert(has_key(by_text(entries@), key@)) by {
                    assert(!unknown_at(wanted, declared, n - 1));
                    let d = choose|d: int|
                        0 <= d < declared.len() && (#[trigger] declared[d]).0 == key@;
                    assert(by_text(entries@)[d].0 == key@);
                }
                match find(&entries, &key) {
                    Some(p) => {
                        entries[p].1 = value;
                        proof {
                            assert(by_text(entries@) =~= before.update(
                                p as int,
                                (before[p as int].0, value),
                            ));
                            assert(by_text(config@) =~= wanted.take(n - 1));
                            assert forall|i: int, j: int|
                                0 <= i < declared.len() && n - 1 <= j < wanted.len() && (
                                #[trigger] wanted[j]).0 == declared[i].0 implies (
                            #[trigger] by_text(entries@)[i]).1 == wanted[j].1 by {
                                if i == p as int {
                                    if j != n - 1 {
                                        assert(wanted[n - 1].0 != wanted[j].0);
                                    }
                                } else {
                                    assert(before[i] == by_text(entries@)[i]);
                                    if j == n - 1 {
                                        assert(before[i].0 == declared[i].0);
                                        assert(before[p as int].0 == declared[p as int].0);
                                        if i < p as int {
                                            assert(declared[i].0 != declared[p as int].0);
                                        } else {
                                            assert(declared[p as int].0 != declared[i].0);
                                        }
                                    }
                                }
                            }
                            assert forall|i: int|
                                0 <= i < declared.len() && (forall|j: int|
                                    n - 1 <= j < wanted.len() ==> (#[trigger] wanted[j]).0
                                        != declared[i].0) implies (#[trigger] by_text(entries@)[i]).1
                                == declared[i].1 by {
                                if i == p as int {
                                    assert(wanted[n - 1].0 == declared[i].0);
                                } else {
                                    assert(before[i] == by_text(entries@)[i]);
                                }
                            }
                        }
                    },
                    None => {},
                }
            },
            None => {},
        }
    }
    proof {
        assert forall|i: int| 0 <= i < declared.len() implies by_text(entries@)[i] == #[trigger] reconciled(
            wanted,
            declared,
        )[i] by {
            let k = declared[i].0;
            if has_key(wanted, k) {
                lemma_first_index(wanted, k);
                let j = first_index(wanted, k);
                assert(wanted[j].0 == declared[i].0);
            } else {
                assert forall|j: int| 0 <= j < wanted.len() implies (#[trigger] wanted[j]).0
                    != k by {}
            }
        }
        assert(by_text(entries@) =~= reconciled(wanted, declared));
    }
    Ok(entries)
}

/// The reconciled table has the keys of the defaults in their order, no key
/// twice, and as a map it is [`reconciled_map`] of the two maps.
pub proof fn lemma_reconciled<V>(config: Seq<(Seq<char>, V)>, default: Seq<(Seq<char>, V)>)
    requires
        distinct_keys(default),
    ensures
        keys(reconciled(config, default)) == keys(default),
        distinct_keys(reconciled(config, default)),
        as_map(reconciled(config, default)) == reconciled_map(as_map(config), as_map(default)),
{
    let r = reconciled(config, default);
    assert(keys(r) =~= keys(default));
    assert forall|i: int| 0 <= i < r.len() implies (#[trigger] r[i]).0 == default[i].0 by {}
    assert forall|a: int, b: int| 0 <= a < b < r.len() implies (#[trigger] r[a]).0 != (
    #[trigger] r[b]).0 by {
        assert(default[a].0 != default[b].0);
    }
    assert forall|k: Seq<char>| has_key(r, k) == has_key(default, k) by {
        if has_key(r, k) {
            let j = choose|j: int| 0 <= j < r.len() && (#[trigger] r[j]).0 == k;
            assert(default[j].0 == k);
        }
        if has_key(default, k) {
            let j = choose|j: int| 0 <= j < default.len() && (#[trigger] default[j]).0 == k;
            assert(r[j].0 == k);
        }
    }
    assert forall|k: Seq<char>| has_key(r, k) implies #[trigger] as_map(r)[k] == reconciled_map(
        as_map(config),
        as_map(default),
    )[k] by {
        lemma_first_index(r, k);
        let i = first_index(r, k);
        lemma_distinct_first(default, i);
    }
    assert(as_map(r) =~= reconciled_map(as_map(config), as_map(default)));
}

/// There is only one first undeclared key.
pub proof fn lemma_first_unknown_unique<V>(
    config: Seq<(Seq<char>, V)>,
    default: Seq<(Seq<char>, V)>,
    i: int,
    j: int,
)
    requires
        first_unknown(config, default, i),
        first_unknown(config, default, j),
    ensures
        i == j,
{
    if i < j {
        assert(!unknown_at(config, default, i));
    } else if j < i {
        assert(!unknown_at(config, default, j));
    }
}

/// Merges a configuration with the defaults, if there are any.
///
/// Without defaults the configuration is the result, whatever it holds.
/// With defaults the result is as [`reconcile`] gives it: the entries of the
/// defaults with the configuration's values laid over them, or
/// `UnknownConfigKey` with the first key that the defaults do not declare.
pub fn merge<V>(config: Vec<(String, V)>, default: Option<Vec<(String, V)>>) -> (result: Result<
    Vec<(String, V)>,
    ConfigError,
>)
    requires
        distinct_keys(by_text(config@)),
        default matches Some(d) ==> distinct_keys(by_text(d@)),
    ensures
        default is None ==> result == Ok::<Vec<(String, V)>, ConfigError>(config),
        match result {
            Ok(entries) => merged(by_text(config@), default_by_text(default)) == Ok::<
                Seq<(Seq<char>, V)>,
                Seq<char>,
            >(by_text(entries@)),
            Err(error) => error matches ConfigError::UnknownConfigKey(key) && merged(
                by_text(config@),
                default_by_text(default),
            ) == Err::<Seq<(Seq<char>, V)>, Seq<char>>(key@),
        },
{
    match default {
        None => Ok(config),
        Some(declared) => {
            let ghost wanted = by_text(config@);
            let ghost given = by_text(declared@);
            let result = reconcile(config, declared);
            proof {
                if result is Err {
                    let i = choose|i: int|
                        first_unknown(wanted, given, i) && result->Err_0->UnknownConfigKey_0@
                            == wanted[i].0;
                    let j = choose|j: int| first_unknown(wanted, given, j);
                    lemma_first_unknown_unique(wanted, given, i, j);
                }
            }
            result
        },
    }
}

/// The defaults of a merge, by the text of their keys.
pub open spec fn default_by_text<V>(default: Option<Vec<(String, V)>>) -> Option<
    Seq<(Seq<char>, V)>,
> {
    match default {
        None => None,
        Some(d) => Some(by_text(d@)),
    }
}

/// A configuration that sets declared keys only is accepted, and the result
/// has exactly the keys of the defaults, in their order.
pub proof fn law_declared_keys_give_the_keys_of_the_defaults<V>(
    config: Seq<(Seq<char>, V)>,
    default: Seq<(Seq<char>, V)>,
)
    requires
        distinct_keys(default),
        forall|k: Seq<char>| has_key(config, k) ==> has_key(default, k),
    ensures
        merged(config, Some(default)) is Ok,
        keys(merged(config, Some(default))->Ok_0) == keys(default),
        as_map(merged(config, Some(default))->Ok_0).dom() == as_map(default).dom(),
{
    assert forall|i: int| 0 <= i < config.len() implies !unknown_at(config, default, i) by {
        assert(has_key(config, config[i].0));
    }
    lemma_reconciled(config, default);
    assert(as_map(reconciled(config, default)).dom() =~= as_map(default).dom());
}

/// A configuration that sets a key the defaults do not declare is rejected,
/// and the key that the rejection names is such a key.
pub proof fn law_undeclared_key_is_rejected<V>(
    config: Seq<(Seq<char>, V)>,
    default: Seq<(Seq<char>, V)>,
    key: Seq<char>,
)
    requires
        has_key(config, key),
        !has_key(default, key),
    ensures
        merged(config, Some(default)) is Err,
        has_key(config, merged(config, Some(default))->Err_0),
        !has_key(default, merged(config, Some(default))->Err_0),
{
    let i = choose|i: int| 0 <= i < config.len() && (#[trigger] config[i]).0 == key;
    assert(unknown_at(config, default, i));
    lemma_some_first_unknown(config, default, i);
    let f = choose|f: int| first_unknown(config, default, f);
    assert(config[f].0 == merged(config, Some(default))->Err_0);
}

proof fn lemma_some_first_unknown<V>(
    config: Seq<(Seq<char>, V)>,
    default: Seq<(Seq<char>, V)>,
    i: int,
)
    requires
        unknown_at(config, default, i),
    ensures
        exists|f: int| first_unknown(config, default, f),
    decreases i,
{
    if forall|j: int| 0 <= j < i ==> !unknown_at(config, default, j) {
        assert(first_unknown(config, default, i));
    } else {
        let j = choose|j: int| 0 <= j < i && unknown_at(config, default, j);
        lemma_some_first_unknown(config, default, j);
    }
}

/// Under a key that both tables hold, the result has the configuration's
/// value.
pub proof fn law_configuration_overrides<V>(
    config: Seq<(Seq<char>, V)>,
    default: Seq<(Seq<char>, V)>,
    key: Seq<char>,
)
    requires
        distinct_keys(default),
        has_key(config, key),
        has_key(default, key),
    ensures
        value_of(reconciled(config, default), key) == value_of(config, key),
{
    lemma_reconciled(config, default);
    let r = reconciled(config, default);
    assert(as_map(default).dom().contains(key));
    assert(as_map(r).dom().contains(key));
    assert(as_map(r)[key] == as_map(config)[key]);
}

/// Under a key that only the defaults hold, the result has the default's
/// value.
pub proof fn law_defaults_fill_in<V>(
    config: Seq<(Seq<char>, V)>,
    default: Seq<(Seq<char>, V)>,
    key: Seq<char>,
)
    requires
        distinct_keys(default),
        !has_key(config, key),
        has_key(default, key),
    ensures
        value_of(reconciled(config, default), key) == value_of(default, key),
{
    lemma_reconciled(config, default);
    let r = reconciled(config, default);
    assert(as_map(default).dom().contains(key));
    assert(as_map(r).dom().contains(key));
    assert(as_map(r)[key] == as_map(default)[key]);
}

/// Without defaults the result is the configuration, entry for entry, and
/// no key is looked at.
pub proof fn law_no_defaults_no_change<V>(config: Seq<(Seq<char>, V)>)
    ensures
        merged(config, None) == Ok::<Seq<(Seq<char>, V)>, Seq<char>>(config),
{
}

} // verus!
