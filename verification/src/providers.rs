use vstd::prelude::*;

use crate::facets::{facets_json, Facet, FacetBuilder, FacetOperation, FacetView};
use crate::text::{chars_of, push_all};

verus! {

/// Providers for content packages.
#[derive(Debug, PartialEq, Eq, Structural, Clone, Copy)]
pub enum Providers {
    Modrinth,
    Curseforge,
}

/// The display name of a provider.
pub open spec fn provider_name(p: Providers) -> Seq<char> {
    match p {
        Providers::Modrinth => "Modrinth"@,
        Providers::Curseforge => "Curseforge"@,
    }
}

/// The home page of a provider.
pub open spec fn provider_url(p: Providers) -> Seq<char> {
    match p {
        Providers::Modrinth => "https://modrinth.com"@,
        Providers::Curseforge => "https://curseforge.com"@,
    }
}

impl Providers {
    /// Get the name of the provider.
    pub fn name(&self) -> (res: &'static str)
        ensures
            res@ == provider_name(*self),
    {
        match self {
            Providers::Modrinth => "Modrinth",
            Providers::Curseforge => "Curseforge",
        }
    }

    /// Get the URL of the provider.
    pub fn url(&self) -> (res: &'static str)
        ensures
            res@ == provider_url(*self),
    {
        match self {
            Providers::Modrinth => "https://modrinth.com",
            Providers::Curseforge => "https://curseforge.com",
        }
    }
}

} // verus!

verus! {

/// Mod loaders a cluster can run.
#[derive(Debug, PartialEq, Eq, Structural, Clone, Copy)]
pub enum Loader {
    Vanilla,
    Forge,
    NeoForge,
    Quilt,
    Fabric,
    LegacyFabric,
}

/// The name of a loader, as it stands in search categories.
pub open spec fn loader_name(l: Loader) -> Seq<char> {
    match l {
        Loader::Vanilla => "vanilla"@,
        Loader::Forge => "forge"@,
        Loader::NeoForge => "neoforge"@,
        Loader::Quilt => "quilt"@,
        Loader::Fabric => "fabric"@,
        Loader::LegacyFabric => "legacyfabric"@,
    }
}

impl Loader {
    /// The name of the loader.
    pub fn to_string(&self) -> (res: String)
        ensures
            res@ == loader_name(*self),
    {
        let s = match self {
            Loader::Vanilla => "vanilla",
            Loader::Forge => "forge",
            Loader::NeoForge => "neoforge",
            Loader::Quilt => "quilt",
            Loader::Fabric => "fabric",
            Loader::LegacyFabric => "legacyfabric",
        };
        s.to_string()
    }
}

/// Kinds of content packages.
#[derive(Debug, PartialEq, Eq, Structural, Clone, Copy)]
pub enum PackageType {
    Mod,
    DataPack,
    ResourcePack,
    ShaderPack,
    ModPack,
}

/// The project type of a package kind, as a search names it.
pub open spec fn package_type_name(t: PackageType) -> Seq<char> {
    match t {
        PackageType::Mod => "mod"@,
        PackageType::DataPack => "datapack"@,
        PackageType::ResourcePack => "resourcepack"@,
        PackageType::ShaderPack => "shader"@,
        PackageType::ModPack => "modpack"@,
    }
}

impl PackageType {
    /// The project type name.
    pub fn get_name(&self) -> (res: &'static str)
        ensures
            res@ == package_type_name(*self),
    {
        match self {
            PackageType::Mod => "mod",
            PackageType::DataPack => "datapack",
            PackageType::ResourcePack => "resourcepack",
            PackageType::ShaderPack => "shader",
            PackageType::ModPack => "modpack",
        }
    }
}

} // verus!

verus! {

/// Facets requiring `field` to equal each of `values`, in order.
pub open spec fn eq_facets(field: Seq<char>, values: Seq<Seq<char>>) -> Seq<FacetView> {
    values.map_values(|v: Seq<char>| (field, FacetOperation::Eq, v))
}

/// The views of a list of strings.
pub open spec fn string_views(v: Seq<String>) -> Seq<Seq<char>> {
    v.map_values(|s: String| s@)
}

/// The facets of a search, in the order in which they are added: the
/// categories, the game versions, the loaders (only where mods or modpacks
/// are searched for), the project types, and whether the project is open
/// source.
pub open spec fn search_facets(
    categories: Option<Seq<Seq<char>>>,
    game_versions: Option<Seq<Seq<char>>>,
    loaders: Option<Seq<Loader>>,
    package_types: Option<Seq<PackageType>>,
    open_source: Option<bool>,
) -> Seq<FacetView> {
    let c = match categories {
        Some(c) => eq_facets("categories"@, c),
        None => seq![],
    };
    let v = match game_versions {
        Some(v) => eq_facets("versions"@, v),
        None => seq![],
    };
    let l = match package_types {
        Some(t) => if t.contains(PackageType::Mod) || t.contains(PackageType::ModPack) {
            match loaders {
                Some(l) => eq_facets("categories"@, l.map_values(|x: Loader| loader_name(x))),
                None => seq![],
            }
        } else {
            seq![]
        },
        None => seq![],
    };
    let t = match package_types {
        Some(t) => eq_facets("project_types"@, t.map_values(|x: PackageType| package_type_name(x))),
        None => seq![],
    };
    let o = match open_source {
        Some(b) => seq![("open_source"@, FacetOperation::Eq, if b { "true"@ } else { "false"@ })],
        None => seq![],
    };
    c + v + l + t + o
}

/// The views of an optional list of strings.
pub open spec fn opt_string_views(o: Option<Vec<String>>) -> Option<Seq<Seq<char>>> {
    match o {
        Some(v) => Some(string_views(v@)),
        None => None,
    }
}

/// The view of an optional list.
pub open spec fn opt_seq<T>(o: Option<Vec<T>>) -> Option<Seq<T>> {
    match o {
        Some(v) => Some(v@),
        None => None,
    }
}

/// Each facet as a group of its own.
pub open spec fn singleton_groups(fs: Seq<FacetView>) -> Seq<Seq<FacetView>> {
    fs.map_values(|f: FacetView| seq![f])
}

fn add_eq_facets(builder: &mut FacetBuilder, field: &str, values: &Vec<String>)
    ensures
        final(builder)@ == old(builder)@ + singleton_groups(eq_facets(field@, string_views(values@))),
{
    let ghost all = singleton_groups(eq_facets(field@, string_views(values@)));
    let mut i: usize = 0;
    assert(old(builder)@ + all.take(0) =~= old(builder)@);
    while i < values.len()
        invariant
            i <= values.len(),
            all == singleton_groups(eq_facets(field@, string_views(values@))),
            builder@ == old(builder)@ + all.take(i as int),
        decreases values.len() - i,
    {
        let f = Facet(field.to_string(), FacetOperation::Eq, values[i].clone());
        builder.and(f);
        assert(old(builder)@ + all.take(i + 1) =~= old(builder)@ + all.take(i as int) + seq![all[i as int]]);
        i = i + 1;
    }
    assert(all.take(values.len() as int) =~= all);
}

fn has_type(types: &Vec<PackageType>, t: PackageType) -> (res: bool)
    ensures
        res == types@.contains(t),
{
    let mut i: usize = 0;
    while i < types.len()
        invariant
            i <= types.len(),
            forall|j: int| 0 <= j < i ==> types@[j] != t,
        decreases types.len() - i,
    {
        if types[i] == t {
            return true;
        }
        i = i + 1;
    }
    false
}

/// Adds the facets of a search to `builder` and returns the built facets.
#[verifier::rlimit(40)]
pub fn build_facets(
    builder: &mut FacetBuilder,
    categories: Option<Vec<String>>,
    game_versions: Option<Vec<String>>,
    loaders: Option<Vec<Loader>>,
    package_types: Option<Vec<PackageType>>,
    open_source: Option<bool>,
) -> (res: String)
    ensures
        final(builder)@ == old(builder)@ + singleton_groups(
            search_facets(
                opt_string_views(categories),
                opt_string_views(game_versions),
                opt_seq(loaders),
                opt_seq(package_types),
                open_source,
            ),
        ),
        res@ == facets_json(final(builder)@),
{
    let ghost start = builder@;
    let ghost cs = opt_string_views(categories);
    let ghost vs = opt_string_views(game_versions);
    let ghost ls = opt_seq(loaders);
    let ghost ts = opt_seq(package_types);
    let ghost fc: Seq<FacetView> = match cs {
        Some(c) => eq_facets("categories"@, c),
        None => seq![],
    };
    let ghost fv: Seq<FacetView> = match vs {
        Some(v) => eq_facets("versions"@, v),
        None => seq![],
    };
    let ghost fl: Seq<FacetView> = match ts {
        Some(t) => if t.contains(PackageType::Mod) || t.contains(PackageType::ModPack) {
            match ls {
                Some(l) => eq_facets("categories"@, l.map_values(|x: Loader| loader_name(x))),
                None => seq![],
            }
        } else {
            seq![]
        },
        None => seq![],
    };
    let ghost ft: Seq<FacetView> = match ts {
        Some(t) => eq_facets("project_types"@, t.map_values(|x: PackageType| package_type_name(x))),
        None => seq![],
    };
    let ghost fo: Seq<FacetView> = match open_source {
        Some(b) => seq![("open_source"@, FacetOperation::Eq, if b { "true"@ } else { "false"@ })],
        None => seq![],
    };
    if let Some(categories) = &categories {
        add_eq_facets(builder, "categories", categories);
    }
    assert(builder@ =~= start + singleton_groups(fc));
    if let Some(game_versions) = &game_versions {
        add_eq_facets(builder, "versions", game_versions);
    }
    assert(builder@ =~= start + singleton_groups(fc + fv));
    if let Some(package_types) = &package_types {
        if has_type(package_types, PackageType::Mod) || has_type(package_types, PackageType::ModPack) {
            if let Some(loaders) = &loaders {
                let mut names: Vec<String> = Vec::new();
                let mut i: usize = 0;
                while i < loaders.len()
                    invariant
                        i <= loaders.len(),
                        string_views(names@) =~= loaders@.take(i as int).map_values(
                            |x: Loader| loader_name(x),
                        ),
                    decreases loaders.len() - i,
                {
                    let name = loaders[i].to_string();
                    let ghost before = names@;
                    names.push(name);
                    assert(string_views(names@) =~= string_views(before).push(loader_name(loaders@[i as int])));
                    assert(loaders@.take(i + 1) =~= loaders@.take(i as int).push(loaders@[i as int]));
                    assert(loaders@.take(i + 1).map_values(|x: Loader| loader_name(x)) =~= loaders@.take(
                        i as int,
                    ).map_values(|x: Loader| loader_name(x)).push(loader_name(loaders@[i as int])));
                    i = i + 1;
                }
                assert(loaders@.take(loaders.len() as int) =~= loaders@);
                add_eq_facets(builder, "categories", &names);
            }
        }
    }
    assert(builder@ =~= start + singleton_groups(fc + fv + fl));
    if let Some(package_types) = &package_types {
        let mut names: Vec<String> = Vec::new();
        let mut i: usize = 0;
        while i < package_types.len()
            invariant
                i <= package_types.len(),
                string_views(names@) =~= package_types@.take(i as int).map_values(
                    |x: PackageType| package_type_name(x),
                ),
            decreases package_types.len() - i,
        {
            let name = package_types[i].get_name().to_string();
            let ghost before = names@;
            names.push(name);
            assert(string_views(names@) =~= string_views(before).push(
                package_type_name(package_types@[i as int]),
            ));
            assert(package_types@.take(i + 1) =~= package_types@.take(i as int).push(
                package_types@[i as int],
            ));
            assert(package_types@.take(i + 1).map_values(|x: PackageType| package_type_name(x))
                =~= package_types@.take(i as int).map_values(
                |x: PackageType| package_type_name(x),
            ).push(package_type_name(package_types@[i as int])));
            i = i + 1;
        }
        assert(package_types@.take(package_types.len() as int) =~= package_types@);
        add_eq_facets(builder, "project_types", &names);
    }
    assert(builder@ =~= start + singleton_groups(fc + fv + fl + ft));
    if let Some(open_source) = open_source {
        let value = if open_source {
            "true"
        } else {
            "false"
        };
        builder.and(Facet("open_source".to_string(), FacetOperation::Eq, value.to_string()));
    }
    assert(builder@ =~= start + singleton_groups(fc + fv + fl + ft + fo));
    builder.build()
}

} // verus!

verus! {

/// Why a text is not a `u32`, as `u32::from_str` tells it.
#[derive(Debug, PartialEq, Eq, Structural, Clone, Copy)]
pub enum IdError {
    /// The text is empty.
    Empty,
    /// A character is not a decimal digit.
    InvalidDigit,
    /// The number is larger than `u32::MAX`.
    PosOverflow,
}

/// Reads decimal digits left to right onto `acc`.
pub open spec fn parse_digits(s: Seq<char>, acc: nat) -> Result<u32, IdError>
    decreases s.len(),
{
    if s.len() == 0 {
        Ok(acc as u32)
    } else if !('0' <= s[0] && s[0] <= '9') {
        Err(IdError::InvalidDigit)
    } else {
        let v = acc * 10 + (s[0] as nat - '0' as nat);
        if v > u32::MAX {
            Err(IdError::PosOverflow)
        } else {
            parse_digits(s.drop_first(), v as nat)
        }
    }
}

/// `u32::from_str`: decimal digits, optionally after one `+`.
pub open spec fn parse_u32_spec(s: Seq<char>) -> Result<u32, IdError> {
    if s.len() == 0 {
        Err(IdError::Empty)
    } else if s[0] == '+' {
        if s.len() == 1 {
            Err(IdError::InvalidDigit)
        } else {
            parse_digits(s.drop_first(), 0)
        }
    } else {
        parse_digits(s, 0)
    }
}

impl IdError {
    /// The message of the error.
    pub fn message(&self) -> (res: &'static str)
        ensures
            res@ == match self {
                IdError::Empty => "cannot parse integer from empty string"@,
                IdError::InvalidDigit => "invalid digit found in string"@,
                IdError::PosOverflow => "number too large to fit in target type"@,
            },
    {
        match self {
            IdError::Empty => "cannot parse integer from empty string",
            IdError::InvalidDigit => "invalid digit found in string",
            IdError::PosOverflow => "number too large to fit in target type",
        }
    }
}

/// Parses a CurseForge project id.
pub fn parse_project_id(s: &str) -> (res: Result<u32, IdError>)
    ensures
        res == parse_u32_spec(s@),
{
    let cs = chars_of(s);
    if cs.len() == 0 {
        return Err(IdError::Empty);
    }
    let mut i: usize = 0;
    if cs[0] == '+' {
        if cs.len() == 1 {
            return Err(IdError::InvalidDigit);
        }
        i = 1;
    }
    let ghost digits = cs@.skip(i as int);
    assert(cs@[0] == '+' ==> cs@.drop_first() =~= digits);
    assert(cs@[0] != '+' ==> cs@ =~= digits);
    let mut acc: u64 = 0;
    while i < cs.len()
        invariant
            1 <= cs.len(),
            i <= cs.len(),
            acc <= u32::MAX,
            parse_u32_spec(s@) == parse_digits(cs@.skip(i as int), acc as nat),
            cs@ == s@,
        decreases cs.len() - i,
    {
        let c = cs[i];
        assert(cs@.skip(i as int)[0] == c);
        assert(cs@.skip(i as int).drop_first() =~= cs@.skip(i + 1));
        if !('0' <= c && c <= '9') {
            return Err(IdError::InvalidDigit);
        }
        let d = (c as u32 - '0' as u32) as u64;
        let v = acc * 10 + d;
        if v > 4294967295u64 {
            return Err(IdError::PosOverflow);
        }
        acc = v;
        i = i + 1;
    }
    assert(cs@.skip(cs.len() as int).len() == 0);
    Ok(acc as u32)
}

/// The CurseForge ids among the texts, in order; the others are skipped.
pub open spec fn project_ids(texts: Seq<Seq<char>>) -> Seq<u32>
    decreases texts.len(),
{
    if texts.len() == 0 {
        seq![]
    } else {
        match parse_u32_spec(texts.last()) {
            Ok(id) => project_ids(texts.drop_last()).push(id),
            Err(_) => project_ids(texts.drop_last()),
        }
    }
}

/// What a lookup of several packages asks of its provider.
#[derive(Debug, PartialEq, Eq)]
pub enum MultipleLookup {
    /// Nothing to look up: the answer is an empty list.
    Nothing,
    /// Look the slugs or ids up as given.
    Slugs,
    /// Look these numeric ids up.
    Ids(Vec<u32>),
}

impl Providers {
    /// The name of the provider as a `String`.
    pub fn to_string(&self) -> (res: String)
        ensures
            res@ == provider_name(*self),
    {
        self.name().to_string()
    }

    /// Decides the lookup of several packages: Modrinth takes the texts as
    /// they are; CurseForge takes those that are numeric ids. Where nothing
    /// is left to ask for, nothing is asked.
    pub fn plan_get_multiple(&self, slug_or_ids: &Vec<String>) -> (res: MultipleLookup)
        ensures
            *self == Providers::Modrinth ==> (res == if slug_or_ids.len() == 0 {
                MultipleLookup::Nothing
            } else {
                MultipleLookup::Slugs
            }),
            *self == Providers::Curseforge ==> ({
                let ids = project_ids(string_views(slug_or_ids@));
                if ids.len() == 0 {
                    res == MultipleLookup::Nothing
                } else {
                    (res matches MultipleLookup::Ids(v) && v@ == ids)
                }
            }),
    {
        match self {
            Providers::Modrinth => {
                if slug_or_ids.len() == 0 {
                    MultipleLookup::Nothing
                } else {
                    MultipleLookup::Slugs
                }
            },
            Providers::Curseforge => {
                let ghost texts = string_views(slug_or_ids@);
                let mut ids: Vec<u32> = Vec::new();
                let mut i: usize = 0;
                while i < slug_or_ids.len()
                    invariant
                        i <= slug_or_ids.len(),
                        texts == string_views(slug_or_ids@),
                        ids@ == project_ids(texts.take(i as int)),
                    decreases slug_or_ids.len() - i,
                {
                    assert(texts.take(i + 1).drop_last() =~= texts.take(i as int));
                    assert(texts.take(i + 1).last() == slug_or_ids@[i as int]@);
                    match parse_project_id(slug_or_ids[i].as_str()) {
                        Ok(id) => ids.push(id),
                        Err(_) => {},
                    }
                    i = i + 1;
                }
                assert(texts.take(slug_or_ids.len() as int) =~= texts);
                if ids.len() == 0 {
                    MultipleLookup::Nothing
                } else {
                    MultipleLookup::Ids(ids)
                }
            },
        }
    }

    /// The error of looking up a team's members where the provider has no
    /// teams (all but Modrinth).
    pub fn team_lookup_error(&self) -> (res: Option<String>)
        ensures
            *self == Providers::Modrinth ==> res is None,
            *self != Providers::Modrinth ==> (res matches Some(m) && m@ == provider_name(*self)
                + " does not support teams"@),
    {
        match self {
            Providers::Modrinth => None,
            _ => {
                let mut m = self.to_string();
                let tail = chars_of(" does not support teams");
                push_all(&mut m, &tail);
                Some(m)
            },
        }
    }

    /// The error of fetching a package body from a URL where the provider
    /// cannot (all but CurseForge).
    pub fn direct_url_error(&self) -> (res: Option<String>)
        ensures
            *self == Providers::Curseforge ==> res is None,
            *self != Providers::Curseforge ==> (res matches Some(m) && m@ == provider_name(*self)
                + " does not support direct URLs"@),
    {
        match self {
            Providers::Curseforge => None,
            _ => {
                let mut m = self.to_string();
                let tail = chars_of(" does not support direct URLs");
                push_all(&mut m, &tail);
                Some(m)
            },
        }
    }
}

} // verus!

verus! {

/// Whether a text is a CurseForge project id.
pub open spec fn is_project_id(t: Seq<char>) -> bool {
    parse_u32_spec(t) is Ok
}

/// The id that a text stands for (meaningful where it is one).
pub open spec fn id_value(t: Seq<char>) -> u32 {
    match parse_u32_spec(t) {
        Ok(id) => id,
        Err(_) => 0,
    }
}

/// The ids of a lookup are those of every text that is an id, each once
/// and in the order of the texts; none is dropped and none is added. Where
/// every text is an id, there are as many ids as texts, each the value of
/// the text at its place.
pub proof fn project_ids_keep_every_id(texts: Seq<Seq<char>>)
    ensures
        project_ids(texts) == texts.filter(|t: Seq<char>| is_project_id(t)).map_values(
            |t: Seq<char>| id_value(t),
        ),
        (forall|i: int| 0 <= i < texts.len() ==> is_project_id(#[trigger] texts[i])) ==> (
        project_ids(texts).len() == texts.len() && forall|i: int|
            0 <= i < texts.len() ==> parse_u32_spec(#[trigger] texts[i]) == Ok::<u32, IdError>(
                project_ids(texts)[i],
            )),
    decreases texts.len(),
{
    reveal(Seq::filter);
    let p = |t: Seq<char>| is_project_id(t);
    let f = |t: Seq<char>| id_value(t);
    if texts.len() > 0 {
        project_ids_keep_every_id(texts.drop_last());
        let prev = texts.drop_last().filter(p);
        if p(texts.last()) {
            assert(prev.push(texts.last()).map_values(f) =~= prev.map_values(f).push(
                f(texts.last()),
            ));
        }
        if forall|i: int| 0 <= i < texts.len() ==> is_project_id(#[trigger] texts[i]) {
            assert forall|i: int| 0 <= i < texts.drop_last().len() implies is_project_id(
                #[trigger] texts.drop_last()[i],
            ) by {
                assert(texts.drop_last()[i] == texts[i]);
                assert(is_project_id(texts[i]));
            }
            assert(is_project_id(texts[texts.len() - 1]));
            let ids = project_ids(texts);
            assert forall|i: int| 0 <= i < texts.len() implies parse_u32_spec(#[trigger] texts[i])
                == Ok::<u32, IdError>(ids[i]) by {
                if i < texts.len() - 1 {
                    assert(texts.drop_last()[i] == texts[i]);
                    assert(parse_u32_spec(texts.drop_last()[i]) == Ok::<u32, IdError>(
                        project_ids(texts.drop_last())[i],
                    ));
                } else {
                    assert(is_project_id(texts[i]));
                }
            }
        }
    } else {
        assert(texts.filter(p) =~= Seq::<Seq<char>>::empty());
        assert(texts.filter(p).map_values(f) =~= Seq::<u32>::empty());
    }
}

/// How many items an optional list holds.
pub open spec fn opt_len<T>(o: Option<Seq<T>>) -> nat {
    match o {
        Some(s) => s.len(),
        None => 0,
    }
}

/// Whether a search asks for mods or modpacks.
pub open spec fn searches_mods(package_types: Option<Seq<PackageType>>) -> bool {
    match package_types {
        Some(t) => t.contains(PackageType::Mod) || t.contains(PackageType::ModPack),
        None => false,
    }
}

/// The facets of a search, one for each filter: first each category, then
/// each game version, then each loader as a category (only where mods or
/// modpacks are searched for; for any other search no loader facet is
/// added), then each project type, and last whether it is open source.
pub proof fn search_facets_layout(
    categories: Option<Seq<Seq<char>>>,
    game_versions: Option<Seq<Seq<char>>>,
    loaders: Option<Seq<Loader>>,
    package_types: Option<Seq<PackageType>>,
    open_source: Option<bool>,
)
    ensures
        ({
            let fs = search_facets(categories, game_versions, loaders, package_types, open_source);
            let nc = opt_len(categories) as int;
            let nv = opt_len(game_versions) as int;
            let nl = if searches_mods(package_types) {
                opt_len(loaders) as int
            } else {
                0int
            };
            let nt = opt_len(package_types) as int;
            let no = if open_source is Some {
                1int
            } else {
                0int
            };
            &&& fs.len() == nc + nv + nl + nt + no
            &&& forall|i: int|
                0 <= i < nc ==> fs[i] == ("categories"@, FacetOperation::Eq, categories->Some_0[i])
            &&& forall|i: int|
                0 <= i < nv ==> fs[nc + i] == (
                    "versions"@,
                    FacetOperation::Eq,
                    game_versions->Some_0[i],
                )
            &&& forall|i: int|
                0 <= i < nl ==> fs[nc + nv + i] == (
                    "categories"@,
                    FacetOperation::Eq,
                    loader_name(loaders->Some_0[i]),
                )
            &&& forall|i: int|
                0 <= i < nt ==> fs[nc + nv + nl + i] == (
                    "project_types"@,
                    FacetOperation::Eq,
                    package_type_name(package_types->Some_0[i]),
                )
            &&& (open_source matches Some(b) ==> fs[nc + nv + nl + nt] == (
                "open_source"@,
                FacetOperation::Eq,
                if b {
                    "true"@
                } else {
                    "false"@
                },
            ))
        }),
{
}

} // verus!
