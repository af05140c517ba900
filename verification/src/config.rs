//! Profile configuration model: named profiles, their client
//! configuration, and the migration and default-selection rules.
//!
//! Persistence (reading and writing the configuration file) and URL
//! parsing live at the process boundary; this model carries URLs as
//! strings and keeps the profile map as an association list with unique
//! names.

use vstd::prelude::*;
use vstd::string::*;

verus! {

/// The name of a stored profile.
#[derive(Debug, Eq)]
pub struct ProfileName(pub String);

impl ProfileName {
    /// The built-in local profile name.
    pub fn local() -> (r: ProfileName)
        ensures
            r.0@ == "local"@,
    {
        ProfileName(String::from_str("local"))
    }

    /// The built-in cloud profile name.
    pub fn cloud() -> (r: ProfileName)
        ensures
            r.0@ == "cloud"@,
    {
        ProfileName(String::from_str("cloud"))
    }
}

impl Clone for ProfileName {
    fn clone(&self) -> (r: ProfileName)
        ensures
            r == *self,
    {
        ProfileName(self.0.clone())
    }
}

impl PartialEq for ProfileName {
    fn eq(&self, other: &ProfileName) -> (r: bool) {
        self.0 == other.0
    }
}

impl vstd::std_specs::cmp::PartialEqSpecImpl for ProfileName {
    open spec fn obeys_eq_spec() -> bool {
        true
    }

    open spec fn eq_spec(&self, other: &ProfileName) -> bool {
        self.0@ == other.0@
    }
}

impl From<String> for ProfileName {
    fn from(name: String) -> (r: ProfileName) {
        ProfileName(name)
    }
}

impl vstd::std_specs::convert::FromSpecImpl<String> for ProfileName {
    open spec fn obeys_from_spec() -> bool {
        true
    }

    open spec fn from_spec(name: String) -> ProfileName {
        ProfileName(name)
    }
}

/// The name of a build profile of the application model.
#[derive(Debug, Eq)]
pub struct BuildProfileName(pub String);

impl Clone for BuildProfileName {
    fn clone(&self) -> (r: BuildProfileName)
        ensures
            r == *self,
    {
        BuildProfileName(self.0.clone())
    }
}

impl PartialEq for BuildProfileName {
    fn eq(&self, other: &BuildProfileName) -> (r: bool) {
        self.0 == other.0
    }
}

impl vstd::std_specs::cmp::PartialEqSpecImpl for BuildProfileName {
    open spec fn obeys_eq_spec() -> bool {
        true
    }

    open spec fn eq_spec(&self, other: &BuildProfileName) -> bool {
        self.0@ == other.0@
    }
}

impl From<String> for BuildProfileName {
    fn from(name: String) -> (r: BuildProfileName) {
        BuildProfileName(name)
    }
}

impl vstd::std_specs::convert::FromSpecImpl<String> for BuildProfileName {
    open spec fn obeys_from_spec() -> bool {
        true
    }

    open spec fn from_spec(name: String) -> BuildProfileName {
        BuildProfileName(name)
    }
}

/// The default rendering format of command output.
#[derive(Debug, Clone, Copy, PartialEq, Eq, Structural)]
pub enum Format {
    Json,
    Yaml,
    Text,
}

impl Default for Format {
    fn default() -> (r: Format)
        ensures
            r is Text,
    {
        Format::Text
    }
}

/// Per-profile preferences.
#[derive(Debug, Clone, Copy, PartialEq, Eq, Structural)]
pub struct ProfileConfig {
    pub default_format: Format,
}

impl Default for ProfileConfig {
    fn default() -> (r: ProfileConfig)
        ensures
            r.default_format is Text,
    {
        ProfileConfig { default_format: Format::Text }
    }
}

/// Which backend flavour a profile speaks to.
#[derive(Debug, Clone, Copy, PartialEq, Eq, Structural)]
pub enum ProfileKind {
    Oss,
    Cloud,
}

/// A profile for a self-hosted deployment. URLs are carried as strings;
/// parsing them is the process boundary's concern.
#[derive(Debug)]
pub struct OssProfile {
    pub url: String,
    pub worker_url: Option<String>,
    pub allow_insecure: bool,
    pub config: ProfileConfig,
}

impl OssProfile {
    /// The profile's preferred output format.
    pub fn format(&self) -> (r: Option<Format>)
        ensures
            r == Some(self.config.default_format),
    {
        Some(self.config.default_format)
    }
}

/// A profile for the hosted cloud; `auth` carries the stored
/// authentication token, if any.
#[derive(Debug)]
pub struct CloudProfile {
    pub custom_url: Option<String>,
    pub custom_cloud_url: Option<String>,
    pub custom_worker_url: Option<String>,
    pub allow_insecure: bool,
    pub config: ProfileConfig,
    pub auth: Option<String>,
}

impl Default for CloudProfile {
    fn default() -> (r: CloudProfile)
        ensures
            r.custom_url is None,
            r.custom_cloud_url is None,
            r.custom_worker_url is None,
            !r.allow_insecure,
            r.config.default_format is Text,
            r.auth is None,
    {
        CloudProfile {
            custom_url: None,
            custom_cloud_url: None,
            custom_worker_url: None,
            allow_insecure: false,
            config: ProfileConfig { default_format: Format::Text },
            auth: None,
        }
    }
}

impl CloudProfile {
    /// The profile's preferred output format.
    pub fn format(&self) -> (r: Option<Format>)
        ensures
            r == Some(self.config.default_format),
    {
        Some(self.config.default_format)
    }
}

/// A stored profile of either flavour.
#[derive(Debug)]
pub enum Profile {
    Golem(OssProfile),
    GolemCloud(CloudProfile),
}

impl Profile {
    /// Takes the per-profile preferences out of the profile.
    pub fn config(self) -> (r: ProfileConfig)
        ensures
            r == (match self {
                Profile::Golem(p) => p.config,
                Profile::GolemCloud(p) => p.config,
            }),
    {
        match self {
            Profile::Golem(p) => p.config,
            Profile::GolemCloud(p) => p.config,
        }
    }

    /// The per-profile preferences.
    pub fn get_config(&self) -> (r: &ProfileConfig)
        ensures
            *r == (match *self {
                Profile::Golem(p) => p.config,
                Profile::GolemCloud(p) => p.config,
            }),
    {
        match self {
            Profile::Golem(p) => &p.config,
            Profile::GolemCloud(p) => &p.config,
        }
    }

    /// Replaces the per-profile preferences.
    pub fn set_config(&mut self, config: ProfileConfig)
        ensures
            final(self).get_config_spec() == config,
            (*final(self)) is Golem <==> (*old(self)) is Golem,
    {
        match self {
            Profile::Golem(p) => p.config = config,
            Profile::GolemCloud(p) => p.config = config,
        }
    }

    /// The per-profile preferences, as contracts see them.
    pub open spec fn get_config_spec(self) -> ProfileConfig {
        match self {
            Profile::Golem(p) => p.config,
            Profile::GolemCloud(p) => p.config,
        }
    }

    /// Which backend flavour this profile speaks to.
    pub fn kind(&self) -> (r: ProfileKind)
        ensures
            r == (match *self {
                Profile::Golem(_) => ProfileKind::Oss,
                Profile::GolemCloud(_) => ProfileKind::Cloud,
            }),
    {
        match self {
            Profile::Golem(_) => ProfileKind::Oss,
            Profile::GolemCloud(_) => ProfileKind::Cloud,
        }
    }
}

/// A profile together with the name it is stored under.
#[derive(Debug)]
pub struct NamedProfile {
    pub name: ProfileName,
    pub profile: Profile,
}

/// First profile stored under the given name.
pub open spec fn spec_profiles_lookup(
    ps: Seq<(ProfileName, Profile)>,
    name: Seq<char>,
) -> Option<Profile>
    decreases ps.len(),
{
    if ps.len() == 0 {
        None
    } else if ps[0].0.0@ == name {
        Some(ps[0].1)
    } else {
        spec_profiles_lookup(ps.drop_first(), name)
    }
}

/// Profile names are unique.
pub open spec fn unique_profile_names(ps: Seq<(ProfileName, Profile)>) -> bool {
    forall|i: int, j: int| 0 <= i < j < ps.len() ==> ps[i].0.0@ != ps[j].0.0@
}

/// A lookup succeeds exactly when some entry carries the name, and with
/// unique names it returns that entry's profile.
pub proof fn lemma_profiles_lookup(ps: Seq<(ProfileName, Profile)>, name: Seq<char>)
    ensures
        (spec_profiles_lookup(ps, name) is Some <==> exists|i: int|
            0 <= i < ps.len() && ps[i].0.0@ == name),
        unique_profile_names(ps) ==> forall|i: int|
            0 <= i < ps.len() && (#[trigger] ps[i]).0.0@ == name ==> spec_profiles_lookup(ps, name)
                == Some(ps[i].1),
    decreases ps.len(),
{
    if ps.len() > 0 {
        assert(unique_profile_names(ps) ==> unique_profile_names(ps.drop_first())) by {
            if unique_profile_names(ps) {
                assert(forall|i: int, j: int|
                    0 <= i < j < ps.drop_first().len() ==> ps.drop_first()[i] == ps[i + 1]
                        && ps.drop_first()[j] == ps[j + 1]);
            }
        }
        lemma_profiles_lookup(ps.drop_first(), name);
        if ps[0].0.0@ == name {
            assert(exists|i: int| 0 <= i < ps.len() && ps[i].0.0@ == name) by {
                assert(ps[0].0.0@ == name);
            }
        } else {
            assert forall|i: int|
                0 <= i < ps.len() && (#[trigger] ps[i]).0.0@ == name implies i >= 1 by {}
            if exists|i: int| 0 <= i < ps.len() && ps[i].0.0@ == name {
                let i = choose|i: int| 0 <= i < ps.len() && ps[i].0.0@ == name;
                assert(ps.drop_first()[i - 1] == ps[i]);
            }
            if spec_profiles_lookup(ps.drop_first(), name) is Some {
                let i = choose|i: int|
                    0 <= i < ps.drop_first().len() && ps.drop_first()[i].0.0@ == name;
                assert(ps[i + 1].0.0@ == name);
            }
        }
    }
}

/// The profile name the active-profile selection resolves to: the
/// explicitly selected one, else the default, else `local`.
pub open spec fn spec_chosen_name(
    selected: Option<ProfileName>,
    default: Option<ProfileName>,
) -> Seq<char> {
    match selected {
        Some(n) => n.0@,
        None => match default {
            Some(d) => d.0@,
            None => "local"@,
        },
    }
}

/// The stored configuration: the profile map and the default selection.
/// The two `active_*` fields are kept only for configurations written by
/// older versions; migration replaces them with `default_profile`.
#[derive(Debug)]
pub struct Config {
    pub profiles: Vec<(ProfileName, Profile)>,
    pub default_profile: Option<ProfileName>,
    pub active_profile: Option<ProfileName>,
    pub active_cloud_profile: Option<ProfileName>,
}

impl Config {
    /// Profile names are unique.
    pub open spec fn wf(self) -> bool {
        unique_profile_names(self.profiles@)
    }

    /// The profile stored under a name, as contracts see it.
    pub open spec fn spec_profile(self, name: Seq<char>) -> Option<Profile> {
        spec_profiles_lookup(self.profiles@, name)
    }

    /// An empty configuration.
    pub fn new() -> (r: Config)
        ensures
            r.wf(),
            r.profiles@.len() == 0,
            r.default_profile is None,
            r.active_profile is None,
            r.active_cloud_profile is None,
    {
        Config {
            profiles: Vec::new(),
            default_profile: None,
            active_profile: None,
            active_cloud_profile: None,
        }
    }

    /// Position of the entry for `name`, if any.
    fn find_profile(&self, name: &String) -> (r: Option<usize>)
        ensures
            (match r {
                Some(i) => {
                    &&& i < self.profiles@.len()
                    &&& self.profiles@[i as int].0.0@ == name@
                    &&& forall|k: int| 0 <= k < i ==> self.profiles@[k].0.0@ != name@
                    &&& self.spec_profile(name@) == Some(self.profiles@[i as int].1)
                },
                None => self.spec_profile(name@) is None,
            }),
    {
        let mut i: usize = 0;
        proof {
            assert(self.profiles@.skip(0) =~= self.profiles@);
        }
        while i < self.profiles.len()
            invariant
                i <= self.profiles@.len(),
                forall|k: int| 0 <= k < i ==> self.profiles@[k].0.0@ != name@,
                spec_profiles_lookup(self.profiles@, name@) == spec_profiles_lookup(
                    self.profiles@.skip(i as int),
                    name@,
                ),
            decreases self.profiles@.len() - i,
        {
            proof {
                assert(self.profiles@.skip(i as int)[0] == self.profiles@[i as int]);
                assert(self.profiles@.skip(i as int).drop_first() =~= self.profiles@.skip(i + 1));
            }
            if self.profiles[i].0.0 == *name {
                return Some(i);
            }
            i = i + 1;
        }
        None
    }

    /// Whether a profile is stored under this name.
    pub fn contains_profile(&self, name: &ProfileName) -> (r: bool)
        ensures
            r == (self.spec_profile(name.0@) is Some),
    {
        self.find_profile(&name.0).is_some()
    }

    /// The profile stored under this name.
    pub fn get_profile(&self, name: &ProfileName) -> (r: Option<&Profile>)
        ensures
            (match r {
                Some(p) => self.spec_profile(name.0@) == Some(*p),
                None => self.spec_profile(name.0@) is None,
            }),
    {
        match self.find_profile(&name.0) {
            Some(i) => Some(&self.profiles[i].1),
            None => None,
        }
    }

    /// Stores `profile` under `name`, replacing any prior profile of
    /// that name.
    pub fn set_profile(&mut self, name: ProfileName, profile: Profile)
        requires
            old(self).wf(),
        ensures
            final(self).wf(),
            final(self).spec_profile(name.0@) == Some(profile),
            forall|n: Seq<char>|
                #![trigger final(self).spec_profile(n)]
                #![trigger old(self).spec_profile(n)]
                n != name.0@ ==> final(self).spec_profile(n) == old(self).spec_profile(n),
            final(self).default_profile == old(self).default_profile,
            final(self).active_profile == old(self).active_profile,
            final(self).active_cloud_profile == old(self).active_cloud_profile,
    {
        let ghost ps0 = self.profiles@;
        match self.find_profile(&name.0) {
            Some(i) => {
                let ghost nv = name.0@;
                self.profiles[i] = (name, profile);
                proof {
                    let ps1 = self.profiles@;
                    assert(unique_profile_names(ps1)) by {
                        assert(forall|a: int| 0 <= a < ps1.len() ==> ps1[a].0.0@ == ps0[a].0.0@);
                    }
                    lemma_profiles_lookup(ps1, nv);
                    assert(ps1[i as int].0.0@ == nv);
                    assert forall|n: Seq<char>| n != nv implies #[trigger] spec_profiles_lookup(
                        ps1,
                        n,
                    ) == spec_profiles_lookup(ps0, n) by {
                        lemma_profiles_lookup(ps1, n);
                        lemma_profiles_lookup(ps0, n);
                        if spec_profiles_lookup(ps1, n) is Some {
                            let a = choose|a: int| 0 <= a < ps1.len() && ps1[a].0.0@ == n;
                            assert(a != i);
                            assert(ps0[a] == ps1[a]);
                        }
                        if spec_profiles_lookup(ps0, n) is Some {
                            let a = choose|a: int| 0 <= a < ps0.len() && ps0[a].0.0@ == n;
                            assert(a != i);
                            assert(ps1[a] == ps0[a]);
                        }
                    }
                }
            },
            None => {
                let ghost nv = name.0@;
                self.profiles.push((name, profile));
                proof {
                    let ps1 = self.profiles@;
                    lemma_profiles_lookup(ps0, nv);
                    assert(unique_profile_names(ps1)) by {
                        assert(forall|a: int| 0 <= a < ps0.len() ==> ps1[a] == ps0[a]);
                        assert forall|a: int, b: int|
                            0 <= a < b < ps1.len() implies ps1[a].0.0@ != ps1[b].0.0@ by {
                            if b == ps1.len() - 1 {
                                if ps1[a].0.0@ == nv {
                                    assert(ps0[a].0.0@ == nv);
                                }
                            }
                        }
                    }
                    lemma_profiles_lookup(ps1, nv);
                    assert(ps1[ps1.len() - 1].0.0@ == nv);
                    assert forall|n: Seq<char>| n != nv implies #[trigger] spec_profiles_lookup(
                        ps1,
                        n,
                    ) == spec_profiles_lookup(ps0, n) by {
                        lemma_profiles_lookup(ps1, n);
                        lemma_profiles_lookup(ps0, n);
                        if spec_profiles_lookup(ps1, n) is Some {
                            let a = choose|a: int| 0 <= a < ps1.len() && ps1[a].0.0@ == n;
                            assert(a < ps0.len());
                            assert(ps0[a] == ps1[a]);
                        }
                        if spec_profiles_lookup(ps0, n) is Some {
                            let a = choose|a: int| 0 <= a < ps0.len() && ps0[a].0.0@ == n;
                            assert(ps1[a] == ps0[a]);
                        }
                    }
                }
            },
        }
    }

    /// Removes and returns the profile stored under this name.
    pub fn remove_profile(&mut self, name: &ProfileName) -> (r: Option<Profile>)
        requires
            old(self).wf(),
        ensures
            final(self).wf(),
            r == old(self).spec_profile(name.0@),
            final(self).spec_profile(name.0@) is None,
            old(self).spec_profile(name.0@) is None ==> final(self).profiles == old(self).profiles,
            forall|n: Seq<char>|
                #![trigger final(self).spec_profile(n)]
                #![trigger old(self).spec_profile(n)]
                n != name.0@ ==> final(self).spec_profile(n) == old(self).spec_profile(n),
            final(self).default_profile == old(self).default_profile,
            final(self).active_profile == old(self).active_profile,
            final(self).active_cloud_profile == old(self).active_cloud_profile,
    {
        let ghost ps0 = self.profiles@;
        let ghost nv = name.0@;
        match self.find_profile(&name.0) {
            Some(i) => {
                let entry = self.profiles.remove(i);
                proof {
                    let ps1 = self.profiles@;
                    assert(ps1 =~= ps0.subrange(0, i as int) + ps0.subrange(
                        i + 1,
                        ps0.len() as int,
                    ));
                    assert(forall|a: int|
                        0 <= a < ps1.len() ==> #[trigger] ps1[a] == if a < i {
                            ps0[a]
                        } else {
                            ps0[a + 1]
                        });
                    assert(unique_profile_names(ps1));
                    lemma_profiles_lookup(ps1, nv);
                    if spec_profiles_lookup(ps1, nv) is Some {
                        let a = choose|a: int| 0 <= a < ps1.len() && ps1[a].0.0@ == nv;
                        if a < i {
                            assert(ps0[a].0.0@ == nv);
                        } else {
                            assert(ps0[a + 1].0.0@ == ps0[i as int].0.0@);
                        }
                    }
                    lemma_profiles_lookup(ps0, nv);
                    assert forall|n: Seq<char>| n != nv implies #[trigger] spec_profiles_lookup(
                        ps1,
                        n,
                    ) == spec_profiles_lookup(ps0, n) by {
                        lemma_profiles_lookup(ps1, n);
                        lemma_profiles_lookup(ps0, n);
                        if spec_profiles_lookup(ps1, n) is Some {
                            let a = choose|a: int| 0 <= a < ps1.len() && ps1[a].0.0@ == n;
                            if a < i {
                                assert(ps0[a].0.0@ == n);
                            } else {
                                assert(ps0[a + 1].0.0@ == n);
                            }
                        }
                        if spec_profiles_lookup(ps0, n) is Some {
                            let a = choose|a: int| 0 <= a < ps0.len() && ps0[a].0.0@ == n;
                            assert(a != i);
                            if a < i {
                                assert(ps1[a].0.0@ == n);
                            } else {
                                assert(ps1[a - 1] == ps0[a]);
                            }
                        }
                    }
                }
                Some(entry.1)
            },
            None => None,
        }
    }

    /// Ensures the built-in `local` and `cloud` profiles exist and a
    /// default profile is selected.
    pub fn with_local_and_cloud_profiles(self) -> (r: Config)
        requires
            self.wf(),
        ensures
            r.wf(),
            self.spec_profile("local"@) is Some ==> r.spec_profile("local"@) == self.spec_profile(
                "local"@,
            ),
            self.spec_profile("local"@) is None ==> (match r.spec_profile("local"@) {
                Some(Profile::Golem(op)) => {
                    &&& op.url@ == "http://localhost:9881"@
                    &&& op.worker_url is None
                    &&& !op.allow_insecure
                    &&& op.config.default_format is Text
                },
                _ => false,
            }),
            self.spec_profile("cloud"@) is Some ==> r.spec_profile("cloud"@) == self.spec_profile(
                "cloud"@,
            ),
            self.spec_profile("cloud"@) is None ==> (match r.spec_profile("cloud"@) {
                Some(Profile::GolemCloud(cp)) => {
                    &&& cp.custom_url is None
                    &&& cp.custom_cloud_url is None
                    &&& cp.custom_worker_url is None
                    &&& !cp.allow_insecure
                    &&& cp.config.default_format is Text
                    &&& cp.auth is None
                },
                _ => false,
            }),
            r.spec_profile("cloud"@) is Some,
            forall|n: Seq<char>|
                n != "local"@ && n != "cloud"@ ==> #[trigger] r.spec_profile(n)
                    == self.spec_profile(n),
            (match r.default_profile {
                Some(n) => n.0@ == (match self.default_profile {
                    Some(d) => d.0@,
                    None => "local"@,
                }),
                None => false,
            }),
            r.active_profile == self.active_profile,
            r.active_cloud_profile == self.active_cloud_profile,
    {
        let ghost s0 = self;
        let mut c = self;
        let local = ProfileName::local();
        if !c.contains_profile(&local) {
            c.set_profile(
                ProfileName::local(),
                Profile::Golem(
                    OssProfile {
                        url: default_oss_url(),
                        worker_url: None,
                        allow_insecure: false,
                        config: ProfileConfig { default_format: Format::Text },
                    },
                ),
            );
        }
        let ghost c1 = c;
        let cloud = ProfileName::cloud();
        if !c.contains_profile(&cloud) {
            c.set_profile(ProfileName::cloud(), Profile::GolemCloud(CloudProfile::default()));
        }
        let ghost c2 = c;
        if c.default_profile.is_none() {
            c.default_profile = Some(ProfileName::local());
        }
        proof {
            reveal_strlit("local");
            reveal_strlit("cloud");
            assert("local"@ != "cloud"@) by {
                assert("local"@[0] == 'l');
                assert("cloud"@[0] == 'c');
            }
            assert(c.profiles == c2.profiles);
            assert(c.spec_profile("local"@) == c2.spec_profile("local"@));
            assert(c.spec_profile("cloud"@) == c2.spec_profile("cloud"@));
            assert(c2.spec_profile("local"@) == c1.spec_profile("local"@));
            assert(c1.spec_profile("cloud"@) == s0.spec_profile("cloud"@));
            assert forall|n: Seq<char>| n != "local"@ && n != "cloud"@ implies #[trigger] c
                .spec_profile(n) == s0.spec_profile(n) by {
                assert(c.spec_profile(n) == c2.spec_profile(n));
                assert(c2.spec_profile(n) == c1.spec_profile(n));
                assert(c1.spec_profile(n) == s0.spec_profile(n));
            }
            assert(s0 == self);
        }
        c
    }

    /// Selects the default profile: fails exactly when no profile of
    /// that name is stored.
    pub fn set_default_profile(&mut self, profile_name: ProfileName) -> (r: bool)
        requires
            old(self).wf(),
        ensures
            final(self).wf(),
            r == (old(self).spec_profile(profile_name.0@) is Some),
            r ==> final(self).profiles == old(self).profiles && final(self).default_profile
                == Some(profile_name) && final(self).active_profile == old(self).active_profile
                && final(self).active_cloud_profile == old(self).active_cloud_profile,
            !r ==> *final(self) == *old(self),
    {
        if self.contains_profile(&profile_name) {
            self.default_profile = Some(profile_name);
            true
        } else {
            false
        }
    }

    /// The names of the stored profiles, in storage order.
    pub fn profile_names(&self) -> (r: Vec<String>)
        ensures
            r.deep_view() == self.profiles@.map_values(|e: (ProfileName, Profile)| e.0.0@),
    {
        let mut r: Vec<String> = Vec::new();
        let mut i: usize = 0;
        while i < self.profiles.len()
            invariant
                i <= self.profiles@.len(),
                r@.len() == i,
                forall|k: int| 0 <= k < i ==> (#[trigger] r@[k])@ == self.profiles@[k].0.0@,
            decreases self.profiles@.len() - i,
        {
            r.push(self.profiles[i].0.0.clone());
            i = i + 1;
        }
        proof {
            assert(r.deep_view() =~= self.profiles@.map_values(
                |e: (ProfileName, Profile)| e.0.0@,
            ));
        }
        r
    }

    /// Takes the selected profile out of the configuration: the named
    /// one if given, else the default, else `local`. Fails exactly when
    /// no profile of the chosen name is stored.
    pub fn get_active_profile(&mut self, selected_profile: Option<ProfileName>) -> (r: Option<
        NamedProfile,
    >)
        requires
            old(self).wf(),
        ensures
            final(self).wf(),
            ({
                let chosen = spec_chosen_name(selected_profile, old(self).default_profile);
                match r {
                    Some(np) => {
                        &&& np.name.0@ == chosen
                        &&& Some(np.profile) == old(self).spec_profile(chosen)
                        &&& final(self).spec_profile(chosen) is None
                        &&& forall|n: Seq<char>|
                            n != chosen ==> #[trigger] final(self).spec_profile(n) == old(
                                self,
                            ).spec_profile(n)
                    },
                    None => {
                        &&& old(self).spec_profile(chosen) is None
                        &&& final(self).profiles == old(self).profiles
                    },
                }
            }),
    {
        let name: ProfileName = match selected_profile {
            Some(n) => n,
            None => match &self.default_profile {
                Some(d) => d.clone(),
                None => ProfileName::local(),
            },
        };
        match self.remove_profile(&name) {
            Some(profile) => Some(NamedProfile { name, profile }),
            None => None,
        }
    }

    /// Applies the one-time migration of configurations written before
    /// the default-profile scheme: drops the old default profiles,
    /// renames profiles that clash with the new built-in names, and
    /// selects `local` as the default. Returns whether anything changed
    /// (and so the configuration needs to be stored again).
    pub fn migrate(self) -> (r: (Config, bool))
        requires
            self.wf(),
        ensures
            r.0.wf(),
            self.default_profile is Some ==> r.0 == self && r.1 == false,
            self.default_profile is None ==> {
                &&& r.1 == true
                &&& (match r.0.default_profile {
                    Some(n) => n.0@ == "local"@,
                    None => false,
                })
                &&& r.0.spec_profile("default"@) is None
                &&& r.0.spec_profile("cloud_default"@) is None
                &&& r.0.spec_profile("local"@) is None
                &&& r.0.spec_profile("cloud"@) is None
                &&& r.0.spec_profile("local-migrated"@) == (if self.spec_profile("local"@)
                    is Some {
                    self.spec_profile("local"@)
                } else {
                    self.spec_profile("local-migrated"@)
                })
                &&& r.0.spec_profile("cloud-migrated"@) == (if self.spec_profile("cloud"@)
                    is Some {
                    self.spec_profile("cloud"@)
                } else {
                    self.spec_profile("cloud-migrated"@)
                })
                &&& forall|n: Seq<char>|
                    n != "default"@ && n != "cloud_default"@ && n != "local"@ && n != "cloud"@ && n
                        != "local-migrated"@ && n != "cloud-migrated"@
                        ==> #[trigger] r.0.spec_profile(n) == self.spec_profile(n)
                &&& r.0.active_profile == self.active_profile
                &&& r.0.active_cloud_profile == self.active_cloud_profile
            },
    {
        if self.default_profile.is_some() {
            return (self, false);
        }
        let ghost s0 = self;
        let mut c = self;
        let _ = c.remove_profile(&ProfileName(String::from_str("default")));
        let ghost c1 = c;
        let _ = c.remove_profile(&ProfileName(String::from_str("cloud_default")));
        let ghost c2 = c;
        let removed_local = c.remove_profile(&ProfileName::local());
        let ghost c2a = c;
        match removed_local {
            Some(profile) => {
                c.set_profile(ProfileName(String::from_str("local-migrated")), profile);
            },
            None => {},
        }
        let ghost c3 = c;
        let removed_cloud = c.remove_profile(&ProfileName::cloud());
        let ghost c3a = c;
        match removed_cloud {
            Some(profile) => {
                c.set_profile(ProfileName(String::from_str("cloud-migrated")), profile);
            },
            None => {},
        }
        let ghost c4 = c;
        c.default_profile = Some(ProfileName::local());
        proof {
            reveal_strlit("default");
            reveal_strlit("cloud_default");
            reveal_strlit("local");
            reveal_strlit("cloud");
            reveal_strlit("local-migrated");
            reveal_strlit("cloud-migrated");
            assert("local"@ != "cloud"@) by {
                assert("local"@[0] == 'l');
                assert("cloud"@[0] == 'c');
            }
            assert("local-migrated"@ != "cloud-migrated"@) by {
                assert("local-migrated"@[0] == 'l');
                assert("cloud-migrated"@[0] == 'c');
            }
            assert("default"@.len() == 7);
            assert("cloud_default"@.len() == 13);
            assert("local"@.len() == 5);
            assert("cloud"@.len() == 5);
            assert("local-migrated"@.len() == 14);
            assert("cloud-migrated"@.len() == 14);
            assert("default"@ != "cloud_default"@ && "default"@ != "local"@ && "default"@
                != "cloud"@ && "default"@ != "local-migrated"@ && "default"@
                != "cloud-migrated"@);
            assert("cloud_default"@ != "local"@ && "cloud_default"@ != "cloud"@
                && "cloud_default"@ != "local-migrated"@ && "cloud_default"@
                != "cloud-migrated"@);
            assert("local"@ != "local-migrated"@ && "local"@ != "cloud-migrated"@);
            assert("cloud"@ != "local-migrated"@ && "cloud"@ != "cloud-migrated"@);
            assert(c.profiles == c4.profiles);
            assert(c.spec_profile("default"@) == c4.spec_profile("default"@));
            assert(c4.spec_profile("default"@) == c3a.spec_profile("default"@));
            assert(c3a.spec_profile("default"@) == c3.spec_profile("default"@));
            assert(c3.spec_profile("default"@) == c2a.spec_profile("default"@));
            assert(c2a.spec_profile("default"@) == c2.spec_profile("default"@));
            assert(c2.spec_profile("default"@) == c1.spec_profile("default"@));
            assert(c.spec_profile("cloud_default"@) == c4.spec_profile("cloud_default"@));
            assert(c4.spec_profile("cloud_default"@) == c3a.spec_profile("cloud_default"@));
            assert(c3a.spec_profile("cloud_default"@) == c3.spec_profile("cloud_default"@));
            assert(c3.spec_profile("cloud_default"@) == c2a.spec_profile("cloud_default"@));
            assert(c2a.spec_profile("cloud_default"@) == c2.spec_profile("cloud_default"@));
            assert(c.spec_profile("local"@) == c4.spec_profile("local"@));
            assert(c4.spec_profile("local"@) == c3a.spec_profile("local"@));
            assert(c3a.spec_profile("local"@) == c3.spec_profile("local"@));
            assert(c3.spec_profile("local"@) == c2a.spec_profile("local"@));
            assert(c.spec_profile("cloud"@) == c4.spec_profile("cloud"@));
            assert(c4.spec_profile("cloud"@) == c3a.spec_profile("cloud"@));
            assert(c.spec_profile("local-migrated"@) == c4.spec_profile("local-migrated"@));
            assert(c4.spec_profile("local-migrated"@) == c3a.spec_profile("local-migrated"@));
            assert(c3a.spec_profile("local-migrated"@) == c3.spec_profile("local-migrated"@));
            assert(c2.spec_profile("local"@) == c1.spec_profile("local"@));
            assert(c1.spec_profile("local"@) == s0.spec_profile("local"@));
            assert(c2.spec_profile("local-migrated"@) == c1.spec_profile("local-migrated"@));
            assert(c1.spec_profile("local-migrated"@) == s0.spec_profile("local-migrated"@));
            assert(c.spec_profile("cloud-migrated"@) == c4.spec_profile("cloud-migrated"@));
            assert(c3.spec_profile("cloud"@) == c2a.spec_profile("cloud"@));
            assert(c2a.spec_profile("cloud"@) == c2.spec_profile("cloud"@));
            assert(c2.spec_profile("cloud"@) == c1.spec_profile("cloud"@));
            assert(c1.spec_profile("cloud"@) == s0.spec_profile("cloud"@));
            assert(c.spec_profile("cloud-migrated"@) == c4.spec_profile("cloud-migrated"@));
            assert(c3a.spec_profile("cloud-migrated"@) == c3.spec_profile("cloud-migrated"@));
            assert(c3.spec_profile("cloud-migrated"@) == c2a.spec_profile("cloud-migrated"@));
            assert(c2a.spec_profile("cloud-migrated"@) == c2.spec_profile("cloud-migrated"@));
            assert(c2.spec_profile("cloud-migrated"@) == c1.spec_profile("cloud-migrated"@));
            assert(c1.spec_profile("cloud-migrated"@) == s0.spec_profile("cloud-migrated"@));
            assert forall|n: Seq<char>|
                n != "default"@ && n != "cloud_default"@ && n != "local"@ && n != "cloud"@ && n
                    != "local-migrated"@ && n != "cloud-migrated"@ implies #[trigger] c
                .spec_profile(n) == s0.spec_profile(n) by {
                assert(c.spec_profile(n) == c4.spec_profile(n));
                assert(c4.spec_profile(n) == c3a.spec_profile(n));
                assert(c3a.spec_profile(n) == c3.spec_profile(n));
                assert(c3.spec_profile(n) == c2a.spec_profile(n));
                assert(c2a.spec_profile(n) == c2.spec_profile(n));
                assert(c2.spec_profile(n) == c1.spec_profile(n));
                assert(c1.spec_profile(n) == s0.spec_profile(n));
            }
            assert(s0 == self);
        }
        (c, true)
    }
}

/// The default URL of a self-hosted deployment.
pub fn default_oss_url() -> (r: String)
    ensures
        r@ == "http://localhost:9881"@,
{
    String::from_str("http://localhost:9881")
}


/// What an ISO-8601 duration string parses to, in milliseconds; `None`
/// for a string that is no valid duration. The parse is a pure function
/// of the string.
pub uninterp spec fn iso8601_duration_millis(s: Seq<char>) -> Option<u64>;

/// Relies on `iso8601::duration` and its documented conversion to
/// `core::time::Duration`: parsing an ISO-8601 duration string depends on
/// the characters alone.
#[verifier::external_body]
fn parse_duration_millis(s: &str) -> (r: Option<u64>)
    ensures
        r == iso8601_duration_millis(s@),
{
    match iso8601::duration(s) {
        Ok(d) => {
            let sd: std::time::Duration = d.into();
            Some(sd.as_millis() as u64)
        },
        Err(_) => None,
    }
}

/// An override value applied to a timeout field: a parseable duration
/// replaces the current value; anything else leaves it.
pub open spec fn spec_override(cur: Option<u64>, env: Option<Seq<char>>) -> Option<u64> {
    match env {
        Some(s) => match iso8601_duration_millis(s) {
            Some(d) => Some(d),
            None => cur,
        },
        None => cur,
    }
}

/// Timeouts of one HTTP client, in milliseconds; `None` means no limit.
#[derive(Debug, Clone, Copy, PartialEq, Eq, Structural)]
pub struct HttpClientConfig {
    pub allow_insecure: bool,
    pub timeout: Option<u64>,
    pub connect_timeout: Option<u64>,
    pub read_timeout: Option<u64>,
}

impl HttpClientConfig {
    /// The configuration for ordinary service calls: no timeouts.
    pub fn new_for_service_calls(allow_insecure: bool) -> (r: HttpClientConfig)
        ensures
            r == (HttpClientConfig {
                allow_insecure,
                timeout: None,
                connect_timeout: None,
                read_timeout: None,
            }),
    {
        HttpClientConfig { allow_insecure, timeout: None, connect_timeout: None, read_timeout: None }
    }

    /// The configuration for health checks: short timeouts.
    pub fn new_for_health_check(allow_insecure: bool) -> (r: HttpClientConfig)
        ensures
            r == (HttpClientConfig {
                allow_insecure,
                timeout: Some(2000u64),
                connect_timeout: Some(1000u64),
                read_timeout: Some(1000u64),
            }),
    {
        HttpClientConfig {
            allow_insecure,
            timeout: Some(2000),
            connect_timeout: Some(1000),
            read_timeout: Some(1000),
        }
    }

    /// The configuration for file downloads: generous timeouts.
    pub fn new_for_file_download(allow_insecure: bool) -> (r: HttpClientConfig)
        ensures
            r == (HttpClientConfig {
                allow_insecure,
                timeout: Some(60000u64),
                connect_timeout: Some(10000u64),
                read_timeout: Some(60000u64),
            }),
    {
        HttpClientConfig {
            allow_insecure,
            timeout: Some(60000),
            connect_timeout: Some(10000),
            read_timeout: Some(60000),
        }
    }

    /// Applies environment overrides: each given string that parses as an
    /// ISO-8601 duration replaces the corresponding timeout; reading the
    /// environment itself is the process boundary's concern.
    pub fn with_env_overrides(
        self,
        timeout: Option<&str>,
        connect_timeout: Option<&str>,
        read_timeout: Option<&str>,
    ) -> (r: HttpClientConfig)
        ensures
            r.allow_insecure == self.allow_insecure,
            r.timeout == spec_override(
                self.timeout,
                match timeout {
                    Some(s) => Some(s@),
                    None => None,
                },
            ),
            r.connect_timeout == spec_override(
                self.connect_timeout,
                match connect_timeout {
                    Some(s) => Some(s@),
                    None => None,
                },
            ),
            r.read_timeout == spec_override(
                self.read_timeout,
                match read_timeout {
                    Some(s) => Some(s@),
                    None => None,
                },
            ),
    {
        let mut r = self;
        match timeout {
            Some(s) => match parse_duration_millis(s) {
                Some(d) => {
                    r.timeout = Some(d);
                },
                None => {},
            },
            None => {},
        }
        match connect_timeout {
            Some(s) => match parse_duration_millis(s) {
                Some(d) => {
                    r.connect_timeout = Some(d);
                },
                None => {},
            },
            None => {},
        }
        match read_timeout {
            Some(s) => match parse_duration_millis(s) {
                Some(d) => {
                    r.read_timeout = Some(d);
                },
                None => {},
            },
            None => {},
        }
        r
    }
}

/// Whether the profile allows insecure connections.
pub open spec fn spec_allow_insecure(profile: Profile) -> bool {
    match profile {
        Profile::Golem(p) => p.allow_insecure,
        Profile::GolemCloud(p) => p.allow_insecure,
    }
}

/// The cloud component URL a profile resolves to.
pub open spec fn spec_cloud_component_url(p: CloudProfile) -> Seq<char> {
    match p.custom_url {
        Some(u) => u@,
        None => "https://release.api.golem.cloud"@,
    }
}

/// The resolved endpoints and client settings derived from a profile.
#[derive(Debug)]
pub struct ClientConfig {
    pub component_url: String,
    pub worker_url: String,
    pub cloud_url: Option<String>,
    pub service_http_client_config: HttpClientConfig,
    pub health_check_http_client_config: HttpClientConfig,
    pub file_download_http_client_config: HttpClientConfig,
}

impl ClientConfig {
    /// Resolves a profile's endpoints: a self-hosted profile serves
    /// components and workers from its own URL; a cloud profile falls
    /// back from each custom URL to the component URL, which itself
    /// falls back to the hosted default. Environment overrides of the
    /// client timeouts are applied at the process boundary.
    pub fn from_profile(profile: &Profile) -> (r: ClientConfig)
        ensures
            (match *profile {
                Profile::Golem(p) => {
                    &&& r.component_url@ == p.url@
                    &&& r.worker_url@ == (match p.worker_url {
                        Some(w) => w@,
                        None => p.url@,
                    })
                    &&& r.cloud_url is None
                },
                Profile::GolemCloud(p) => {
                    &&& r.component_url@ == spec_cloud_component_url(p)
                    &&& r.worker_url@ == (match p.custom_worker_url {
                        Some(u) => u@,
                        None => spec_cloud_component_url(p),
                    })
                    &&& (match r.cloud_url {
                        Some(cu) => cu@ == (match p.custom_cloud_url {
                            Some(u) => u@,
                            None => spec_cloud_component_url(p),
                        }),
                        None => false,
                    })
                },
            }),
            r.service_http_client_config == (HttpClientConfig {
                allow_insecure: spec_allow_insecure(*profile),
                timeout: None,
                connect_timeout: None,
                read_timeout: None,
            }),
            r.health_check_http_client_config == (HttpClientConfig {
                allow_insecure: spec_allow_insecure(*profile),
                timeout: Some(2000u64),
                connect_timeout: Some(1000u64),
                read_timeout: Some(1000u64),
            }),
            r.file_download_http_client_config == (HttpClientConfig {
                allow_insecure: spec_allow_insecure(*profile),
                timeout: Some(60000u64),
                connect_timeout: Some(10000u64),
                read_timeout: Some(60000u64),
            }),
    {
        match profile {
            Profile::Golem(p) => {
                let allow_insecure = p.allow_insecure;
                let worker_url = match &p.worker_url {
                    Some(w) => w.clone(),
                    None => p.url.clone(),
                };
                ClientConfig {
                    component_url: p.url.clone(),
                    worker_url,
                    cloud_url: None,
                    service_http_client_config: HttpClientConfig::new_for_service_calls(
                        allow_insecure,
                    ),
                    health_check_http_client_config: HttpClientConfig::new_for_health_check(
                        allow_insecure,
                    ),
                    file_download_http_client_config: HttpClientConfig::new_for_file_download(
                        allow_insecure,
                    ),
                }
            },
            Profile::GolemCloud(p) => {
                let allow_insecure = p.allow_insecure;
                let component_url = match &p.custom_url {
                    Some(u) => u.clone(),
                    None => String::from_str("https://release.api.golem.cloud"),
                };
                let cloud_url = match &p.custom_cloud_url {
                    Some(u) => u.clone(),
                    None => component_url.clone(),
                };
                let worker_url = match &p.custom_worker_url {
                    Some(u) => u.clone(),
                    None => component_url.clone(),
                };
                ClientConfig {
                    component_url,
                    worker_url,
                    cloud_url: Some(cloud_url),
                    service_http_client_config: HttpClientConfig::new_for_service_calls(
                        allow_insecure,
                    ),
                    health_check_http_client_config: HttpClientConfig::new_for_health_check(
                        allow_insecure,
                    ),
                    file_download_http_client_config: HttpClientConfig::new_for_file_download(
                        allow_insecure,
                    ),
                }
            },
        }
    }
}

} // verus!
