use hudson_core::skills::{normalize_newlines, portable_name, split_frontmatter, Skill, SkillCatalog, SkillPackage, SkillResource};
use hudson_core::Error;

fn skill(name: &str) -> Skill {
    Skill { name: name.to_string(), description: format!("About {name}"), instructions: format!("Do {name}") }
}

fn resource(path: &str, contents: &str) -> SkillResource {
    SkillResource { path: path.to_string(), contents: contents.to_string() }
}

#[test]
fn catalogs_are_sorted_and_their_digest_ignores_input_order() {
    let a = SkillCatalog::new(vec![skill("beta"), skill("alpha")]).unwrap();
    let b = SkillCatalog::new(vec![skill("alpha"), skill("beta")]).unwrap();
    assert_eq!(a.digest(), b.digest());
    let names: Vec<&str> = a.skills().iter().map(|s| s.name.as_str()).collect();
    assert_eq!(names, vec!["alpha", "beta"]);
    let changed = SkillCatalog::new(vec![skill("alpha"), Skill { instructions: "Other".to_string(), ..skill("beta") }]).unwrap();
    assert_ne!(changed.digest(), a.digest());
}

#[test]
fn catalogs_refuse_duplicates_invalid_entries_and_bad_sizes() {
    assert!(matches!(SkillCatalog::new(vec![skill("a"), skill("a")]), Err(Error::Conflict(_))));
    assert!(matches!(SkillCatalog::new(vec![]), Err(Error::Invalid(_))));
    assert!(matches!(SkillCatalog::new(vec![skill("has space")]), Err(Error::Invalid(_))));
    assert!(matches!(SkillCatalog::new(vec![Skill { description: "  ".to_string(), ..skill("a") }]), Err(Error::Invalid(_))));
    assert!(matches!(SkillCatalog::new(vec![Skill { instructions: "x".repeat(32769), ..skill("a") }]), Err(Error::Invalid(_))));
    let many: Vec<Skill> = (0..65).map(|i| skill(&format!("s{i}"))).collect();
    assert!(matches!(SkillCatalog::new(many), Err(Error::Invalid(_))));
}

#[test]
fn line_ends_are_normalized() {
    assert_eq!(normalize_newlines("a\r\nb\r\n"), "a\nb\n");
    assert_eq!(normalize_newlines("a\rb\r"), "a\rb\r");
    assert_eq!(normalize_newlines("\r\r\n"), "\r\n");
    assert_eq!(normalize_newlines(""), "");
}

#[test]
fn frontmatter_splits_at_the_first_fence() {
    let (header, body) = split_frontmatter("---\r\nname: analysis\r\ndescription: Analyze\r\n---\r\nUse evidence.\n---\nmore").unwrap();
    assert_eq!(header, "name: analysis\ndescription: Analyze");
    assert_eq!(body, "Use evidence.\n---\nmore");
    assert!(matches!(split_frontmatter("name: x\n---\nbody"), Err(Error::Invalid(_))));
    assert!(matches!(split_frontmatter("---\nname: x\nbody"), Err(Error::Invalid(_))));
    let (header, body) = split_frontmatter("---\n\n---\n").unwrap();
    assert_eq!(header, "");
    assert_eq!(body, "");
}

#[test]
fn portable_names_use_lowercase_digits_and_single_hyphens() {
    assert!(portable_name("analysis"));
    assert!(portable_name("data-2"));
    assert!(!portable_name(""));
    assert!(!portable_name("-a"));
    assert!(!portable_name("a-"));
    assert!(!portable_name("a--b"));
    assert!(!portable_name("Analysis"));
    assert!(!portable_name(&"a".repeat(65)));
    assert!(portable_name(&"a".repeat(64)));
}

#[test]
fn packages_keep_resources_by_path_within_limits() {
    let markdown = "---\nname: analysis\ndescription: Analyze\n---\nUse evidence.";
    let package = SkillPackage::from_parts(
        "analysis",
        markdown,
        "analysis".to_string(),
        "Analyze evidence".to_string(),
        "Use evidence.".to_string(),
        vec![resource("scripts/run.sh", "echo"), resource("references/a.md", "A"), resource("assets/b.txt", "B"), resource("references/a.md", "A2")],
    )
    .unwrap();
    let paths: Vec<&str> = package.resources.iter().map(|r| r.path.as_str()).collect();
    assert_eq!(paths, vec!["assets/b.txt", "references/a.md", "scripts/run.sh"]);
    assert_eq!(package.resources[1].contents, "A2");
    assert_eq!(package.skill.instructions, "Use evidence.");
    let catalog = SkillCatalog::with_packages(vec![skill("other")], vec![package]).unwrap();
    assert_eq!(catalog.skills().len(), 2);
}

#[test]
fn packages_refuse_mismatched_names_and_oversized_content() {
    let parts = |dir: &str, name: &str, resources: Vec<SkillResource>| {
        SkillPackage::from_parts(dir, "---\n---\n", name.to_string(), "Analyze".to_string(), "Body".to_string(), resources)
    };
    assert!(matches!(parts("analysis", "other", vec![]), Err(Error::Invalid(_))));
    assert!(matches!(parts("Analysis", "Analysis", vec![]), Err(Error::Invalid(_))));
    assert!(parts("analysis", "analysis", vec![]).is_ok());
    assert!(matches!(parts("analysis", "analysis", vec![resource("big", &"x".repeat(131073))]), Err(Error::Invalid(_))));
    let many: Vec<SkillResource> = (0..129).map(|i| resource(&format!("r{i}"), "x")).collect();
    assert!(matches!(parts("analysis", "analysis", many), Err(Error::Invalid(_))));
    let heavy: Vec<SkillResource> = (0..17).map(|i| resource(&format!("r{i}"), &"x".repeat(131072))).collect();
    assert!(matches!(parts("analysis", "analysis", heavy), Err(Error::Invalid(_))));
    let fits: Vec<SkillResource> = (0..15).map(|i| resource(&format!("r{i}"), &"x".repeat(131072))).collect();
    assert!(parts("analysis", "analysis", fits).is_ok());
}
