//! The profiles that are stored, and the rules they are held to.

use crate::errors::{AddVariableError, NewProfileError, ValidationError};
use crate::name_map::{
    ascending, lemma_ascending_take, lemma_ascending_unique, lemma_paired_push, paired, NameMap,
};
use crate::names::{
    is_reserved, is_reserved_name, is_valid_env_var_name, is_valid_profile_name,
    storable_variable_name, valid_profile_name, valid_variable_name,
};
use vstd::prelude::*;

verus! {

/// A named set of environment variables: each name with its value.
#[derive(Debug)]
pub struct Profile {
    pub env_vars: NameMap<String>,
}

/// All the profiles, each under its name.
#[derive(Debug)]
pub struct Config {
    pub profiles: NameMap<Profile>,
}

impl View for Profile {
    type V = Map<Seq<char>, Seq<char>>;

    /// The value of each variable that the profile sets.
    open spec fn view(&self) -> Map<Seq<char>, Seq<char>> {
        self.env_vars@.map_values(|value: String| value@)
    }
}

impl View for Config {
    type V = Map<Seq<char>, Map<Seq<char>, Seq<char>>>;

    /// The variables of each profile.
    open spec fn view(&self) -> Map<Seq<char>, Map<Seq<char>, Seq<char>>> {
        self.profiles@.map_values(|profile: Profile| profile@)
    }
}

/// Every variable of the profile has a valid name that is no marker.
pub open spec fn valid_profile(profile: Map<Seq<char>, Seq<char>>) -> bool {
    forall|name: Seq<char>| #[trigger] profile.contains_key(name) ==> storable_variable_name(name)
}

/// Every profile has a valid name and is itself valid.
pub open spec fn valid_config(config: Map<Seq<char>, Map<Seq<char>, Seq<char>>>) -> bool {
    forall|profile: Seq<char>| #[trigger]
        config.contains_key(profile) ==> valid_profile_name(profile) && valid_profile(
            config[profile],
        )
}

/// The map that a list of variables gives when its pairs are taken one
/// after another; of two pairs with one name the later one stays.
pub open spec fn variables_of(pairs: Seq<(Seq<char>, Seq<char>)>) -> Map<Seq<char>, Seq<char>>
    decreases pairs.len(),
{
    if pairs.len() == 0 {
        Map::empty()
    } else {
        variables_of(pairs.drop_last()).insert(pairs.last().0, pairs.last().1)
    }
}

/// The map that a list of profiles gives when they are taken one after
/// another; of two profiles with one name the later one stays.
pub open spec fn profiles_of(entries: Seq<(Seq<char>, Seq<(Seq<char>, Seq<char>)>)>) -> Map<
    Seq<char>,
    Map<Seq<char>, Seq<char>>,
>
    decreases entries.len(),
{
    if entries.len() == 0 {
        Map::empty()
    } else {
        profiles_of(entries.drop_last()).insert(entries.last().0, variables_of(entries.last().1))
    }
}

impl Profile {
    /// The names of the variables, in ascending order.
    pub open spec fn names(&self) -> Seq<Seq<char>> {
        self.env_vars.keys()
    }

    /// The values of the variables, each at the place of its name.
    pub open spec fn values(&self) -> Seq<Seq<char>> {
        self.env_vars.values().map_values(|value: String| value@)
    }

    /// The names ascend, in the profile as it is held.
    pub open spec fn well_formed(&self) -> bool {
        self.env_vars.ordered()
    }

    /// A profile without variables.
    pub fn new() -> (profile: Profile)
        ensures
            profile@ == Map::<Seq<char>, Seq<char>>::empty(),
            profile.names() == Seq::<Seq<char>>::empty(),
    {
        let profile = Profile { env_vars: NameMap::new() };
        proof {
            assert(profile@ =~= Map::<Seq<char>, Seq<char>>::empty());
        }
        profile
    }

    /// Sets the variable `name` to `value`, and gives back the value that
    /// it had.
    pub fn insert(&mut self, name: String, value: String) -> (previous: Option<String>)
        ensures
            final(self)@ == old(self)@.insert(name@, value@),
            match previous {
                Some(before) => old(self)@.contains_key(name@) && before@ == old(self)@[name@],
                None => !old(self)@.contains_key(name@),
            },
    {
        let previous = self.env_vars.insert(name, value);
        proof {
            assert(self@ =~= old(self)@.insert(name@, value@));
        }
        previous
    }

    /// The variables as pairs of name and value, in the order of the names.
    pub open spec fn pairs(&self) -> Seq<(Seq<char>, Seq<char>)> {
        Seq::new(self.names().len(), |i: int| (self.names()[i], self.values()[i]))
    }

    /// The variables as pairs of name and value, in the order of the names.
    pub fn entries(&self) -> (pairs: Vec<(String, String)>)
        ensures
            pairs.deep_view() == self.pairs(),
            variables_of(pairs.deep_view()) == self@,
    {
        let mut pairs: Vec<(String, String)> = Vec::new();
        let n = self.env_vars.len();
        let mut i: usize = 0;
        while i < n
            invariant
                i <= n,
                n == self.names().len(),
                n == self.env_vars.values().len(),
                pairs@.len() == i,
                forall|j: int|
                    0 <= j < i ==> (#[trigger] pairs@[j]).0@ == self.names()[j] && pairs@[j].1@
                        == self.values()[j],
            decreases n - i,
        {
            pairs.push((self.env_vars.key(i).clone(), self.env_vars.value(i).clone()));
            i = i + 1;
        }
        proof {
            assert(pairs.deep_view() =~= self.pairs());
            use_type_invariant(&self.env_vars);
            self.lemma_pairs_give_the_profile();
        }
        pairs
    }

    /// The profile that holds the variables of `pairs`.
    pub fn from_entries(pairs: &[(String, String)]) -> (profile: Profile)
        ensures
            profile@ == variables_of(pairs.deep_view()),
    {
        let mut profile = Profile::new();
        let mut i: usize = 0;
        proof {
            assert(pairs.deep_view().take(0) =~= Seq::empty());
        }
        while i < pairs.len()
            invariant
                i <= pairs.len(),
                profile@ == variables_of(pairs.deep_view().take(i as int)),
            decreases pairs.len() - i,
        {
            profile.insert(pairs[i].0.clone(), pairs[i].1.clone());
            proof {
                let done = pairs.deep_view().take(i + 1);
                assert(done.drop_last() =~= pairs.deep_view().take(i as int));
                assert(done.last() == (pairs[i as int].0@, pairs[i as int].1@));
            }
            i = i + 1;
        }
        proof {
            assert(pairs.deep_view().take(pairs.len() as int) =~= pairs.deep_view());
        }
        profile
    }

    /// The pairs of a profile give its variables back.
    pub proof fn lemma_pairs_give_the_profile(&self)
        requires
            self.well_formed(),
        ensures
            variables_of(self.pairs()) == self@,
    {
        self.env_vars.lemma_ordered();
        self.lemma_pairs_upto(self.names().len() as int);
        assert(self.pairs().take(self.names().len() as int) =~= self.pairs());
        assert(self.names().take(self.names().len() as int) =~= self.names());
        assert(self.env_vars.values().take(self.names().len() as int)
            =~= self.env_vars.values());
    }

    /// What a profile holds is all that there is to it: two profiles with
    /// the same variables have them in the same order.
    pub proof fn lemma_variables_determine_pairs(&self, other: &Profile)
        requires
            self.well_formed(),
            other.well_formed(),
            self@ == other@,
        ensures
            self.pairs() == other.pairs(),
    {
        self.env_vars.lemma_ordered();
        other.env_vars.lemma_ordered();
        assert(self.names().to_set() =~= self@.dom());
        assert(other.names().to_set() =~= other@.dom());
        lemma_ascending_unique(self.names(), other.names());
        assert forall|i: int| 0 <= i < self.names().len() implies self.values()[i]
            == other.values()[i] by {
            assert(self@[self.names()[i]] == self.values()[i]);
            assert(other@[other.names()[i]] == other.values()[i]);
        }
        assert(self.pairs() =~= other.pairs());
    }

    proof fn lemma_pairs_upto(&self, k: int)
        requires
            self.well_formed(),
            0 <= k <= self.names().len(),
        ensures
            variables_of(self.pairs().take(k)) == paired(
                self.names().take(k),
                self.env_vars.values().take(k),
            ).map_values(|value: String| value@),
        decreases k,
    {
        self.env_vars.lemma_ordered();
        let keys = self.names();
        let held = self.env_vars.values();
        if k == 0 {
            assert(variables_of(self.pairs().take(0)) =~= paired(
                keys.take(0),
                held.take(0),
            ).map_values(|value: String| value@));
        } else {
            self.lemma_pairs_upto(k - 1);
            let done = self.pairs().take(k);
            assert(done.drop_last() =~= self.pairs().take(k - 1));
            assert(done.last() == (keys[k - 1], held[k - 1]@));
            lemma_paired_push(keys.take(k - 1), held.take(k - 1), keys[k - 1], held[k - 1]);
            assert(keys.take(k - 1).push(keys[k - 1]) =~= keys.take(k));
            assert(held.take(k - 1).push(held[k - 1]) =~= held.take(k));
            assert(variables_of(done) =~= paired(keys.take(k), held.take(k)).map_values(
                |value: String| value@,
            )) by {
                lemma_ascending_take(keys, k);
            }
        }
    }
}

impl Config {
    /// The names of the profiles, in ascending order.
    pub open spec fn names(&self) -> Seq<Seq<char>> {
        self.profiles.keys()
    }

    /// The profile at place `i` of `names`.
    pub open spec fn profile_at(&self, i: int) -> Profile {
        self.profiles.values()[i]
    }

    /// The names ascend, among the profiles and in each of them.
    pub open spec fn well_formed(&self) -> bool {
        &&& self.profiles.ordered()
        &&& forall|i: int|
            0 <= i < self.names().len() ==> (#[trigger] self.profile_at(i)).well_formed()
    }

    /// A configuration without profiles.
    pub fn new() -> (config: Config)
        ensures
            config@ == Map::<Seq<char>, Map<Seq<char>, Seq<char>>>::empty(),
    {
        let config = Config { profiles: NameMap::new() };
        proof {
            assert(config@ =~= Map::<Seq<char>, Map<Seq<char>, Seq<char>>>::empty());
        }
        config
    }

    /// The configuration that is stored where none was found: one profile,
    /// `default`, with two example variables.
    pub fn default_config() -> (config: Config)
        ensures
            config@ == map![
                "default"@ => map![
                    "EXAMPLE_VAR"@ => "example_value"@,
                    "ANOTHER_VAR"@ => "another_value"@,
                ],
            ],
            config.is_valid(),
    {
        let mut example = Profile::new();
        example.insert("EXAMPLE_VAR".to_owned(), "example_value".to_owned());
        example.insert("ANOTHER_VAR".to_owned(), "another_value".to_owned());
        let mut config = Config::new();
        let ghost variables = example@;
        config.profiles.insert("default".to_owned(), example);
        proof {
            assert(variables =~= map![
                "EXAMPLE_VAR"@ => "example_value"@,
                "ANOTHER_VAR"@ => "another_value"@,
            ]);
            assert(config@ =~= map!["default"@ => variables]);
            reveal_strlit("default");
            reveal_strlit("EXAMPLE_VAR");
            reveal_strlit("ANOTHER_VAR");
            reveal_strlit("SETENV_VARS");
            reveal_strlit("SETENV_PROFILE");
            assert(valid_profile_name("default"@));
            assert("EXAMPLE_VAR"@[0] == 'E' && "ANOTHER_VAR"@[0] == 'A');
            assert("SETENV_VARS"@[0] == 'S' && "SETENV_PROFILE"@[0] == 'S');
            assert(valid_variable_name("EXAMPLE_VAR"@));
            assert(valid_variable_name("ANOTHER_VAR"@));
        }
        config
    }

    /// What a run works with, given what was found in store. Where nothing
    /// was found it is the default configuration, which is then to be
    /// stored: the flag says so. What was found is checked, and kept as it
    /// is where it passes.
    pub fn load(stored: Option<Config>) -> (loaded: Result<(Config, bool), ValidationError>)
        ensures
            match stored {
                None => loaded matches Ok((config, fresh)) && fresh && config.is_valid() && config@
                    == map![
                    "default"@ => map![
                        "EXAMPLE_VAR"@ => "example_value"@,
                        "ANOTHER_VAR"@ => "another_value"@,
                    ],
                ],
                Some(found) => match loaded {
                    Ok((config, fresh)) => !fresh && config == found && found.is_valid(),
                    Err(error) => found.reports(Err(error)),
                },
            },
    {
        match stored {
            None => Ok((Config::default_config(), true)),
            Some(found) => {
                match found.validate() {
                    Ok(_) => Ok((found, false)),
                    Err(error) => Err(error),
                }
            },
        }
    }

    /// Adds an empty profile called `name`, unless there is one already or
    /// the name is not valid; then the configuration stays as it was. A
    /// valid configuration stays valid.
    pub fn create_profile(&mut self, name: &str) -> (created: Result<(), NewProfileError>)
        ensures
            old(self).is_valid() ==> final(self).is_valid(),
            match created {
                Ok(_) => {
                    &&& !old(self)@.contains_key(name@)
                    &&& valid_profile_name(name@)
                    &&& final(self)@ == old(self)@.insert(name@, Map::<Seq<char>, Seq<char>>::empty())
                },
                Err(NewProfileError::AlreadyExists { profile }) => {
                    &&& old(self)@.contains_key(name@)
                    &&& profile@ == name@
                    &&& *final(self) == *old(self)
                },
                Err(NewProfileError::InvalidName { profile }) => {
                    &&& !old(self)@.contains_key(name@)
                    &&& !valid_profile_name(name@)
                    &&& profile@ == name@
                    &&& *final(self) == *old(self)
                },
            },
    {
        if self.profiles.contains_key(name) {
            return Err(NewProfileError::AlreadyExists { profile: name.to_owned() });
        }
        if !is_valid_profile_name(name) {
            return Err(NewProfileError::InvalidName { profile: name.to_owned() });
        }
        self.profiles.insert(name.to_owned(), Profile::new());
        proof {
            assert(self@ =~= old(self)@.insert(name@, Map::<Seq<char>, Seq<char>>::empty()));
        }
        Ok(())
    }

    /// Sets the variable `key` of the profile `profile` to `value`. Where
    /// there is no such profile, or `key` is not a valid variable name or
    /// is the name of a marker, the configuration stays as it was. A valid
    /// configuration stays valid.
    pub fn add_variable(&mut self, profile: &str, key: &str, value: &str) -> (added: Result<
        (),
        AddVariableError,
    >)
        ensures
            old(self).is_valid() ==> final(self).is_valid(),
            match added {
                Ok(_) => {
                    &&& old(self)@.contains_key(profile@)
                    &&& storable_variable_name(key@)
                    &&& final(self)@ == old(self)@.insert(
                        profile@,
                        old(self)@[profile@].insert(key@, value@),
                    )
                },
                Err(AddVariableError::ProfileNotFound { profile: missing }) => {
                    &&& !old(self)@.contains_key(profile@)
                    &&& missing@ == profile@
                    &&& *final(self) == *old(self)
                },
                Err(AddVariableError::InvalidName { name }) => {
                    &&& old(self)@.contains_key(profile@)
                    &&& !valid_variable_name(key@)
                    &&& name@ == key@
                    &&& *final(self) == *old(self)
                },
                Err(AddVariableError::ReservedName { name }) => {
                    &&& old(self)@.contains_key(profile@)
                    &&& valid_variable_name(key@)
                    &&& is_reserved(key@)
                    &&& name@ == key@
                    &&& *final(self) == *old(self)
                },
            },
    {
        if !self.profiles.contains_key(profile) {
            return Err(AddVariableError::ProfileNotFound { profile: profile.to_owned() });
        }
        if !is_valid_env_var_name(key) {
            return Err(AddVariableError::InvalidName { name: key.to_owned() });
        }
        if is_reserved_name(key) {
            return Err(AddVariableError::ReservedName { name: key.to_owned() });
        }
        let mut held = self.profiles.remove(profile).unwrap();
        held.insert(key.to_owned(), value.to_owned());
        self.profiles.insert(profile.to_owned(), held);
        proof {
            assert(self@ =~= old(self)@.insert(
                profile@,
                old(self)@[profile@].insert(key@, value@),
            ));
        }
        Ok(())
    }

    /// The profiles as pairs of name and variables, in the order of the
    /// names.
    pub open spec fn listed(&self) -> Seq<(Seq<char>, Seq<(Seq<char>, Seq<char>)>)> {
        Seq::new(self.names().len(), |i: int| (self.names()[i], self.profile_at(i).pairs()))
    }

    /// The profiles as pairs of name and variables, in the order of the
    /// names.
    pub fn entries(&self) -> (entries: Vec<(String, Vec<(String, String)>)>)
        ensures
            entries.deep_view() == self.listed(),
            profiles_of(entries.deep_view()) == self@,
    {
        let mut entries: Vec<(String, Vec<(String, String)>)> = Vec::new();
        let n = self.profiles.len();
        let mut i: usize = 0;
        while i < n
            invariant
                i <= n,
                n == self.names().len(),
                entries@.len() == i,
                forall|j: int|
                    0 <= j < i ==> (#[trigger] entries@[j]).0@ == self.names()[j]
                        && entries@[j].1.deep_view() == self.profile_at(j).pairs(),
                forall|j: int| 0 <= j < i ==> (#[trigger] self.profile_at(j)).well_formed(),
            decreases n - i,
        {
            let profile = self.profiles.value(i);
            proof {
                use_type_invariant(&profile.env_vars);
            }
            let pairs = profile.entries();
            entries.push((self.profiles.key(i).clone(), pairs));
            i = i + 1;
        }
        proof {
            assert(entries.deep_view() =~= self.listed());
            use_type_invariant(&self.profiles);
            self.lemma_entries_give_the_config();
        }
        entries
    }

    /// The configuration that holds the profiles of `entries`.
    pub fn from_entries(entries: &[(String, Vec<(String, String)>)]) -> (config: Config)
        ensures
            config@ == profiles_of(entries.deep_view()),
    {
        let mut config = Config::new();
        let mut i: usize = 0;
        proof {
            assert(entries.deep_view().take(0) =~= Seq::empty());
        }
        while i < entries.len()
            invariant
                i <= entries.len(),
                config@ == profiles_of(entries.deep_view().take(i as int)),
            decreases entries.len() - i,
        {
            let ghost before = config@;
            let profile = Profile::from_entries(entries[i].1.as_slice());
            let ghost variables = profile@;
            config.profiles.insert(entries[i].0.clone(), profile);
            proof {
                let done = entries.deep_view().take(i + 1);
                assert(done.drop_last() =~= entries.deep_view().take(i as int));
                assert(done.last() == (entries[i as int].0@, entries[i as int].1.deep_view()));
                assert(config@ =~= before.insert(entries[i as int].0@, variables));
            }
            i = i + 1;
        }
        proof {
            assert(entries.deep_view().take(entries.len() as int) =~= entries.deep_view());
        }
        config
    }

    /// The entries of a configuration give it back: the same profiles, each
    /// with the same variables.
    pub proof fn lemma_entries_give_the_config(&self)
        requires
            self.well_formed(),
        ensures
            profiles_of(self.listed()) == self@,
    {
        self.profiles.lemma_ordered();
        let n = self.names().len() as int;
        self.lemma_listed_upto(n);
        assert(self.listed().take(n) =~= self.listed());
        assert(self.names().take(n) =~= self.names());
        assert(self.profiles.values().take(n) =~= self.profiles.values());
    }

    /// What a configuration holds is all that there is to it: two
    /// configurations with the same profiles list them, and the variables
    /// of each, in the same order.
    pub proof fn lemma_profiles_determine_listed(&self, other: &Config)
        requires
            self.well_formed(),
            other.well_formed(),
            self@ == other@,
        ensures
            self.names() == other.names(),
            self.listed() == other.listed(),
    {
        self.profiles.lemma_ordered();
        other.profiles.lemma_ordered();
        assert(self.names().to_set() =~= self@.dom());
        assert(other.names().to_set() =~= other@.dom());
        lemma_ascending_unique(self.names(), other.names());
        assert forall|i: int| 0 <= i < self.names().len() implies self.profile_at(i).pairs()
            == other.profile_at(i).pairs() by {
            assert(self@[self.names()[i]] == self.profile_at(i)@);
            assert(other@[other.names()[i]] == other.profile_at(i)@);
            self.profile_at(i).lemma_variables_determine_pairs(&other.profile_at(i));
        }
        assert(self.listed() =~= other.listed());
    }

    proof fn lemma_listed_upto(&self, k: int)
        requires
            self.well_formed(),
            0 <= k <= self.names().len(),
        ensures
            profiles_of(self.listed().take(k)) == paired(
                self.names().take(k),
                self.profiles.values().take(k),
            ).map_values(|profile: Profile| profile@),
        decreases k,
    {
        self.profiles.lemma_ordered();
        let keys = self.names();
        let held = self.profiles.values();
        if k == 0 {
            assert(profiles_of(self.listed().take(0)) =~= paired(
                keys.take(0),
                held.take(0),
            ).map_values(|profile: Profile| profile@));
        } else {
            self.lemma_listed_upto(k - 1);
            let done = self.listed().take(k);
            assert(done.drop_last() =~= self.listed().take(k - 1));
            assert(done.last() == (keys[k - 1], held[k - 1].pairs()));
            assert(held[k - 1] == self.profile_at(k - 1));
            held[k - 1].lemma_pairs_give_the_profile();
            lemma_ascending_take(keys, k);
            assert(keys.take(k - 1).push(keys[k - 1]) =~= keys.take(k));
            assert(held.take(k - 1).push(held[k - 1]) =~= held.take(k));
            lemma_paired_push(keys.take(k - 1), held.take(k - 1), keys[k - 1], held[k - 1]);
            assert(profiles_of(done) =~= paired(keys.take(k), held.take(k)).map_values(
                |profile: Profile| profile@,
            ));
        }
    }

    /// The profile called `name`, if there is one.
    pub fn get_profile(&self, name: &str) -> (found: Option<&Profile>)
        ensures
            match found {
                Some(profile) => self@.contains_key(name@) && profile@ == self@[name@]
                    && *profile == self.profiles@[name@],
                None => !self@.contains_key(name@),
            },
    {
        self.profiles.get(name)
    }

    /// Every profile has a valid name, and every variable a valid name that
    /// is no marker.
    pub open spec fn is_valid(&self) -> bool {
        valid_config(self@)
    }

    /// The names of the variables of the profile at place `i`.
    pub open spec fn variables_at(&self, i: int) -> Seq<Seq<char>> {
        self.profile_at(i).names()
    }

    /// Place `i` holds the first profile whose name is not valid.
    pub open spec fn first_invalid_profile(&self, i: int) -> bool {
        &&& 0 <= i < self.names().len()
        &&& !valid_profile_name(self.names()[i])
        &&& forall|a: int| 0 <= a < i ==> valid_profile_name(#[trigger] self.names()[a])
    }

    /// The name of the variable at place `j` of the profile at place `i`
    /// fails: at the stage of the markers it is the name of a marker, at
    /// the stage before it is no valid variable name.
    pub open spec fn variable_fails(&self, i: int, j: int, markers: bool) -> bool {
        if markers {
            is_reserved(self.variables_at(i)[j])
        } else {
            !valid_variable_name(self.variables_at(i)[j])
        }
    }

    /// The variable at place `j` of the profile at place `i` is the first,
    /// profile by profile, whose name fails at the stage given.
    pub open spec fn first_failing_variable(&self, i: int, j: int, markers: bool) -> bool {
        &&& 0 <= i < self.names().len()
        &&& 0 <= j < self.variables_at(i).len()
        &&& self.variable_fails(i, j, markers)
        &&& forall|b: int| 0 <= b < j ==> !#[trigger] self.variable_fails(i, b, markers)
        &&& forall|a: int, b: int|
            0 <= a < i && 0 <= b < self.variables_at(a).len() ==> !#[trigger] self.variable_fails(
                a,
                b,
                markers,
            )
    }

    /// No variable of any profile has a name that fails at the stage given.
    pub open spec fn no_variable_fails(&self, markers: bool) -> bool {
        forall|a: int, b: int|
            0 <= a < self.names().len() && 0 <= b < self.variables_at(a).len()
                ==> !#[trigger] self.variable_fails(a, b, markers)
    }

    /// Every profile has a valid name.
    pub open spec fn profile_names_valid(&self) -> bool {
        forall|a: int| 0 <= a < self.names().len() ==> valid_profile_name(#[trigger] self.names()[a])
    }

    /// `checked` is what a check of this configuration reports. The check
    /// goes in three stages, each over the whole configuration, and the
    /// first finding ends it: the first profile name that is not valid;
    /// then the first variable name that is not valid; then the first
    /// variable that has the name of a marker. Nothing is reported where
    /// the configuration is valid.
    pub open spec fn reports(&self, checked: Result<(), ValidationError>) -> bool {
        &&& checked is Ok <==> self.is_valid()
        &&& match checked {
            Ok(_) => true,
            Err(ValidationError::InvalidProfileName { profile }) => exists|i: int|
                self.first_invalid_profile(i) && profile@ == self.names()[i],
            Err(ValidationError::InvalidVariableName { profile, name }) => {
                &&& self.profile_names_valid()
                &&& exists|i: int, j: int|
                    self.first_failing_variable(i, j, false) && profile@ == self.names()[i]
                        && name@ == self.variables_at(i)[j]
            },
            Err(ValidationError::ReservedVariableName { profile, name }) => {
                &&& self.profile_names_valid()
                &&& self.no_variable_fails(false)
                &&& exists|i: int, j: int|
                    self.first_failing_variable(i, j, true) && profile@ == self.names()[i]
                        && name@ == self.variables_at(i)[j]
            },
        }
    }

    /// The place of the first variable, profile by profile, whose name
    /// fails at the stage given: the place of its profile, then its own.
    fn find_failing_variable(&self, markers: bool) -> (found: Option<(usize, usize)>)
        ensures
            match found {
                Some((i, j)) => self.first_failing_variable(i as int, j as int, markers),
                None => self.no_variable_fails(markers),
            },
    {
        let n = self.profiles.len();
        let mut i: usize = 0;
        while i < n
            invariant
                i <= n,
                n == self.names().len(),
                forall|a: int, b: int|
                    0 <= a < i && 0 <= b < self.variables_at(a).len()
                        ==> !#[trigger] self.variable_fails(a, b, markers),
            decreases n - i,
        {
            let held = self.profiles.value(i);
            let m = held.env_vars.len();
            let mut j: usize = 0;
            while j < m
                invariant
                    j <= m,
                    i < n,
                    n == self.names().len(),
                    *held == self.profile_at(i as int),
                    m == self.variables_at(i as int).len(),
                    forall|a: int, b: int|
                        0 <= a < i && 0 <= b < self.variables_at(a).len()
                            ==> !#[trigger] self.variable_fails(a, b, markers),
                    forall|b: int|
                        0 <= b < j ==> !#[trigger] self.variable_fails(i as int, b, markers),
                decreases m - j,
            {
                let name = held.env_vars.key(j);
                let fails = if markers {
                    is_reserved_name(name.as_str())
                } else {
                    !is_valid_env_var_name(name.as_str())
                };
                if fails {
                    return Some((i, j));
                }
                j = j + 1;
            }
            i = i + 1;
        }
        None
    }

    /// Checks the configuration in three stages, each over all of it, and
    /// reports the first finding: a profile name that is not valid; then a
    /// variable name that is not valid; then a variable that has the name
    /// of a marker. Within a stage the profiles are taken in the order of
    /// their names, and so are the variables of each.
    pub fn validate(&self) -> (checked: Result<(), ValidationError>)
        ensures
            self.reports(checked),
    {
        proof {
            use_type_invariant(&self.profiles);
            self.profiles.lemma_ordered();
        }
        let n = self.profiles.len();
        let mut i: usize = 0;
        while i < n
            invariant
                i <= n,
                n == self.names().len(),
                self.profiles.ordered(),
                forall|a: int| 0 <= a < i ==> valid_profile_name(#[trigger] self.names()[a]),
            decreases n - i,
        {
            let profile = self.profiles.key(i);
            proof {
                self.profiles.lemma_ordered();
            }
            if !is_valid_profile_name(profile.as_str()) {
                proof {
                    assert(self.first_invalid_profile(i as int));
                    assert(self@.contains_key(self.names()[i as int]));
                }
                return Err(ValidationError::InvalidProfileName { profile: profile.clone() });
            }
            i = i + 1;
        }
        match self.find_failing_variable(false) {
            Some((i, j)) => {
                proof {
                    self.lemma_failing_is_invalid(i as int, j as int, false);
                }
                return Err(
                    ValidationError::InvalidVariableName {
                        profile: self.profiles.key(i).clone(),
                        name: self.profiles.value(i).env_vars.key(j).clone(),
                    },
                );
            },
            None => {},
        }
        match self.find_failing_variable(true) {
            Some((i, j)) => {
                proof {
                    self.lemma_failing_is_invalid(i as int, j as int, true);
                }
                return Err(
                    ValidationError::ReservedVariableName {
                        profile: self.profiles.key(i).clone(),
                        name: self.profiles.value(i).env_vars.key(j).clone(),
                    },
                );
            },
            None => {},
        }
        proof {
            self.lemma_none_failing_is_valid();
        }
        Ok(())
    }

    /// A configuration with a variable whose name fails at either stage is
    /// not valid.
    pub proof fn lemma_failing_is_invalid(&self, i: int, j: int, markers: bool)
        requires
            self.profiles.ordered(),
            0 <= i < self.names().len(),
            0 <= j < self.variables_at(i).len(),
            self.variable_fails(i, j, markers),
        ensures
            !self.is_valid(),
    {
        self.profiles.lemma_ordered();
        let profile = self.names()[i];
        let name = self.variables_at(i)[j];
        assert(self@.contains_key(profile));
        assert(self@[profile] == self.profile_at(i)@);
        assert(self.variables_at(i).contains(name));
        assert(self.profile_at(i).env_vars@.contains_key(name));
        assert(self@[profile].contains_key(name));
        assert(!storable_variable_name(name));
    }

    /// A configuration in which no name fails at any stage is valid.
    pub proof fn lemma_none_failing_is_valid(&self)
        requires
            self.profile_names_valid(),
            self.no_variable_fails(false),
            self.no_variable_fails(true),
        ensures
            self.is_valid(),
    {
        assert forall|profile: Seq<char>| #[trigger] self@.contains_key(profile) implies valid_profile_name(
            profile,
        ) && valid_profile(self@[profile]) by {
            assert(self.names().contains(profile));
            let a = self.names().index_of(profile);
            assert(self.names()[a] == profile);
            assert(self@[profile] == self.profile_at(a)@);
            assert forall|name: Seq<char>| #[trigger]
                self@[profile].contains_key(name) implies storable_variable_name(name) by {
                assert(self.variables_at(a).contains(name));
                let b = self.variables_at(a).index_of(name);
                assert(!self.variable_fails(a, b, false));
                assert(!self.variable_fails(a, b, true));
            }
        }
    }

    /// The names of all profiles, in ascending order.
    pub fn profile_names(&self) -> (names: Vec<&str>)
        ensures
            names.deep_view() == self.names(),
            ascending(names.deep_view()),
            names.deep_view().to_set() == self@.dom(),
    {
        let mut names: Vec<&str> = Vec::new();
        let n = self.profiles.len();
        let mut i: usize = 0;
        while i < n
            invariant
                i <= n,
                n == self.names().len(),
                names@.len() == i,
                forall|j: int| 0 <= j < i ==> (#[trigger] names@[j])@ == self.names()[j],
            decreases n - i,
        {
            names.push(self.profiles.key(i).as_str());
            i = i + 1;
        }
        proof {
            use_type_invariant(&self.profiles);
            self.profiles.lemma_ordered();
            assert(names.deep_view() =~= self.names());
            assert(self@.dom() =~= self.profiles@.dom());
        }
        names
    }
}

} // verus!
