use onelauncher_logs::facets::{Facet, FacetBuilder, FacetOperation};
use onelauncher_logs::providers::{
    build_facets, parse_project_id, IdError, Loader, MultipleLookup, PackageType, Providers,
};

#[test]
fn provider_names_and_urls() {
    assert_eq!(Providers::Modrinth.name(), "Modrinth");
    assert_eq!(Providers::Curseforge.name(), "Curseforge");
    assert_eq!(Providers::Modrinth.url(), "https://modrinth.com");
    assert_eq!(Providers::Curseforge.url(), "https://curseforge.com");
    assert_eq!(Providers::Curseforge.to_string(), "Curseforge");
}

#[test]
fn loader_and_type_names() {
    assert_eq!(Loader::Fabric.to_string(), "fabric");
    assert_eq!(Loader::NeoForge.to_string(), "neoforge");
    assert_eq!(PackageType::ModPack.get_name(), "modpack");
    assert_eq!(PackageType::ShaderPack.get_name(), "shader");
}

#[test]
fn facets_without_filters() {
    let mut b = FacetBuilder::new();
    assert_eq!(build_facets(&mut b, None, None, None, None, None), "[]");
}

#[test]
fn facets_full_search() {
    let mut b = FacetBuilder::new();
    let out = build_facets(
        &mut b,
        Some(vec!["adventure".to_string()]),
        Some(vec!["1.8.9".to_string(), "1.20.1".to_string()]),
        Some(vec![Loader::Forge, Loader::Fabric]),
        Some(vec![PackageType::Mod]),
        Some(true),
    );
    assert_eq!(
        out,
        "[[\"categories:adventure\"],[\"versions:1.8.9\"],[\"versions:1.20.1\"],\
         [\"categories:forge\"],[\"categories:fabric\"],[\"project_types:mod\"],\
         [\"open_source:true\"]]"
    );
}

#[test]
fn loaders_only_for_mods_and_modpacks() {
    let mut b = FacetBuilder::new();
    let out = build_facets(
        &mut b,
        None,
        None,
        Some(vec![Loader::Quilt]),
        Some(vec![PackageType::ResourcePack]),
        Some(false),
    );
    assert_eq!(out, "[[\"project_types:resourcepack\"],[\"open_source:false\"]]");
    let mut b = FacetBuilder::new();
    let out = build_facets(&mut b, None, None, Some(vec![Loader::Quilt]), None, None);
    assert_eq!(out, "[]");
    let mut b = FacetBuilder::new();
    let out = build_facets(
        &mut b,
        None,
        None,
        Some(vec![Loader::Quilt]),
        Some(vec![PackageType::DataPack, PackageType::ModPack]),
        None,
    );
    assert_eq!(
        out,
        "[[\"categories:quilt\"],[\"project_types:datapack\"],[\"project_types:modpack\"]]"
    );
}

#[test]
fn facets_escape_json() {
    let mut b = FacetBuilder::new();
    b.and(Facet("title".to_string(), FacetOperation::NotEq, "a\"b\\c\n".to_string()));
    b.and(Facet("downloads".to_string(), FacetOperation::Gte, "10".to_string()));
    assert_eq!(b.build(), "[[\"title!=a\\\"b\\\\c\\u000a\"],[\"downloads>=10\"]]");
}

#[test]
fn facets_add_to_existing_builder() {
    let mut b = FacetBuilder::new();
    b.and(Facet("client_side".to_string(), FacetOperation::Eq, "required".to_string()));
    let out = build_facets(&mut b, None, None, None, None, Some(true));
    assert_eq!(out, "[[\"client_side:required\"],[\"open_source:true\"]]");
}

#[test]
fn project_ids_parse_like_std() {
    for s in ["0", "42", "+7", "4294967295", "4294967296", "", "+", "-1", "12a", "99999999999x", " 1", "٣"] {
        let ours = parse_project_id(s);
        let std = s.parse::<u32>();
        match (ours, std) {
            (Ok(a), Ok(b)) => assert_eq!(a, b, "{s:?}"),
            (Err(e), Err(f)) => assert_eq!(e.message(), f.to_string(), "{s:?}"),
            (a, b) => panic!("{s:?}: {a:?} vs {b:?}"),
        }
    }
}

#[test]
fn id_error_kinds() {
    assert_eq!(parse_project_id(""), Err(IdError::Empty));
    assert_eq!(parse_project_id("x"), Err(IdError::InvalidDigit));
    assert_eq!(parse_project_id("5000000000"), Err(IdError::PosOverflow));
}

#[test]
fn plan_get_multiple_modrinth() {
    assert_eq!(Providers::Modrinth.plan_get_multiple(&vec![]), MultipleLookup::Nothing);
    assert_eq!(
        Providers::Modrinth.plan_get_multiple(&vec!["sodium".to_string()]),
        MultipleLookup::Slugs
    );
}

#[test]
fn plan_get_multiple_curseforge() {
    let texts = vec!["238222".to_string(), "jei".to_string(), "+5".to_string()];
    assert_eq!(
        Providers::Curseforge.plan_get_multiple(&texts),
        MultipleLookup::Ids(vec![238222, 5])
    );
    assert_eq!(
        Providers::Curseforge.plan_get_multiple(&vec!["jei".to_string()]),
        MultipleLookup::Nothing
    );
}

#[test]
fn unsupported_lookups() {
    assert_eq!(Providers::Modrinth.team_lookup_error(), None);
    assert_eq!(
        Providers::Curseforge.team_lookup_error(),
        Some("Curseforge does not support teams".to_string())
    );
    assert_eq!(Providers::Curseforge.direct_url_error(), None);
    assert_eq!(
        Providers::Modrinth.direct_url_error(),
        Some("Modrinth does not support direct URLs".to_string())
    );
}
