//! Logic-layer configuration: cube aliases, named sets and short-name
//! overrides for levels and properties.
use vstd::prelude::*;
use crate::names::{LevelName, LevelNameView};
use crate::schema::first_index;
use crate::text::text_eq;

verus! {

/// Another name under which a cube can be requested.
#[derive(Debug, Clone, PartialEq, Eq)]
pub struct AliasConfig {
    pub name: String,
    pub cube: String,
}

/// A symbolic cut value of a cut key that stands for a comma-separated list
/// of member ids.
#[derive(Debug, Clone, PartialEq, Eq)]
pub struct NamedSetConfig {
    pub cut_key: String,
    pub name: String,
    pub members: String,
}

/// A short name for a level (or, with `property`, for one of its
/// properties). `scope` is the cube name for a cube override and the
/// dimension name for a shared-dimension override.
#[derive(Debug, Clone, PartialEq, Eq)]
pub struct NameOverride {
    pub scope: String,
    pub level_name: LevelName,
    pub property: Option<String>,
    pub unique_name: String,
}

#[derive(Debug, Clone, PartialEq, Eq)]
pub struct LogicLayerConfig {
    pub aliases: Option<Vec<AliasConfig>>,
    pub named_sets: Vec<NamedSetConfig>,
    pub cube_names: Vec<NameOverride>,
    pub shared_dimension_names: Vec<NameOverride>,
}

pub open spec fn alias_names(a: Seq<AliasConfig>) -> Seq<Seq<char>> {
    a.map_values(|x: AliasConfig| x.name@)
}

/// The cube a requested name stands for: the target of the first alias with
/// that name, else the name itself.
pub open spec fn cube_name_for(c: LogicLayerConfig, name: Seq<char>) -> Seq<char> {
    match c.aliases {
        Some(a) => {
            let k = first_index(alias_names(a@), name);
            if k < 0 {
                name
            } else {
                a@[k].cube@
            }
        },
        None => name,
    }
}

/// The members a cut value stands for: those of the first named set of the
/// cut key with that name, else the value itself.
pub open spec fn named_set_value(sets: Seq<NamedSetConfig>, key: Seq<char>, value: Seq<char>) -> Seq<char>
    decreases sets.len(),
{
    if sets.len() == 0 {
        value
    } else if sets[0].cut_key@ == key && sets[0].name@ == value {
        sets[0].members@
    } else {
        named_set_value(sets.drop_first(), key, value)
    }
}

/// Whether an override is for `ln` itself (`prop` None) or for its property
/// `prop`.
pub open spec fn override_matches(o: NameOverride, scope: Seq<char>, ln: LevelNameView, prop: Option<Seq<char>>) -> bool {
    &&& o.scope@ == scope
    &&& o.level_name@ == ln
    &&& match (o.property, prop) {
        (None, None) => true,
        (Some(a), Some(b)) => a@ == b,
        _ => false,
    }
}

/// The short name given by the first matching override.
pub open spec fn override_name(os: Seq<NameOverride>, scope: Seq<char>, ln: LevelNameView, prop: Option<Seq<char>>) -> Option<Seq<char>>
    decreases os.len(),
{
    if os.len() == 0 {
        None
    } else if override_matches(os[0], scope, ln, prop) {
        Some(os[0].unique_name@)
    } else {
        override_name(os.drop_first(), scope, ln, prop)
    }
}

fn find_override(os: &Vec<NameOverride>, scope: &str, ln: &LevelName, prop: &Option<String>) -> (r: Option<String>)
    ensures
        match r {
            Some(s) => override_name(os@, scope@, ln@, prop.deep_view()) == Some(s@),
            None => override_name(os@, scope@, ln@, prop.deep_view()) is None,
        },
{
    let mut i: usize = 0;
    assert(os@.subrange(0, os@.len() as int) =~= os@);
    while i < os.len()
        invariant
            i <= os.len(),
            override_name(os@, scope@, ln@, prop.deep_view()) == override_name(
                os@.subrange(i as int, os@.len() as int),
                scope@,
                ln@,
                prop.deep_view(),
            ),
        decreases os.len() - i,
    {
        let o = &os[i];
        proof {
            let rest = os@.subrange(i as int, os@.len() as int);
            assert(rest[0] == os@[i as int]);
            assert(rest.drop_first() =~= os@.subrange(i as int + 1, os@.len() as int));
        }
        let same_prop = match (&o.property, prop) {
            (None, None) => true,
            (Some(a), Some(b)) => *a == *b,
            _ => false,
        };
        if text_eq(o.scope.as_str(), scope) && o.level_name.same(ln) && same_prop {
            return Some(o.unique_name.clone());
        }
        i = i + 1;
    }
    None
}

impl LogicLayerConfig {
    /// The cube a requested name stands for.
    pub fn sub_cube_name(&self, name: &str) -> (r: String)
        ensures
            r@ == cube_name_for(*self, name@),
    {
        match &self.aliases {
            Some(aliases) => {
                let mut i: usize = 0;
                while i < aliases.len()
                    invariant
                        self.aliases == Some(*aliases),
                        i <= aliases.len(),
                        forall|j: int| 0 <= j < i ==> alias_names(aliases@)[j] != name@,
                    decreases aliases.len() - i,
                {
                    if text_eq(aliases[i].name.as_str(), name) {
                        proof {
                            assert(alias_names(aliases@)[i as int] == aliases@[i as int].name@);
                            crate::schema::lemma_first_index(alias_names(aliases@), name@, i as int);
                        }
                        return aliases[i].cube.clone();
                    }
                    i = i + 1;
                }
                proof {
                    crate::schema::lemma_first_index(alias_names(aliases@), name@, i as int);
                }
                String::from_str(name)
            },
            None => String::from_str(name),
        }
    }

    /// The members a cut value stands for under the named sets.
    pub fn substitute_cut(&self, cut_key: &str, value: &str) -> (r: String)
        ensures
            r@ == named_set_value(self.named_sets@, cut_key@, value@),
    {
        let sets = &self.named_sets;
        let mut i: usize = 0;
        assert(sets@.subrange(0, sets@.len() as int) =~= sets@);
        while i < sets.len()
            invariant
                *sets == self.named_sets,
                i <= sets.len(),
                named_set_value(sets@, cut_key@, value@) == named_set_value(
                    sets@.subrange(i as int, sets@.len() as int),
                    cut_key@,
                    value@,
                ),
            decreases sets.len() - i,
        {
            proof {
                let rest = sets@.subrange(i as int, sets@.len() as int);
                assert(rest[0] == sets@[i as int]);
                assert(rest.drop_first() =~= sets@.subrange(i as int + 1, sets@.len() as int));
            }
            if text_eq(sets[i].cut_key.as_str(), cut_key) && text_eq(sets[i].name.as_str(), value) {
                assert(named_set_value(sets@.subrange(i as int, sets@.len() as int), cut_key@, value@)
                    == sets@[i as int].members@);
                return sets[i].members.clone();
            }
            i = i + 1;
        }
        String::from_str(value)
    }

    /// The short name that a cube override gives a level or property.
    pub fn find_unique_cube_name(&self, cube: &str, ln: &LevelName, prop: &Option<String>) -> (r: Option<String>)
        ensures
            match r {
                Some(s) => override_name(self.cube_names@, cube@, ln@, prop.deep_view()) == Some(s@),
                None => override_name(self.cube_names@, cube@, ln@, prop.deep_view()) is None,
            },
    {
        find_override(&self.cube_names, cube, ln, prop)
    }

    /// The short name that a shared-dimension override gives a level or
    /// property.
    pub fn find_unique_shared_dimension_name(&self, dimension: &str, ln: &LevelName, prop: &Option<String>) -> (r: Option<String>)
        ensures
            match r {
                Some(s) => override_name(self.shared_dimension_names@, dimension@, ln@, prop.deep_view()) == Some(s@),
                None => override_name(self.shared_dimension_names@, dimension@, ln@, prop.deep_view()) is None,
            },
    {
        find_override(&self.shared_dimension_names, dimension, ln, prop)
    }
}

} // verus!
