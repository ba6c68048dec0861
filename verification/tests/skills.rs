use perry_hermes_agent::json::Json;
use perry_hermes_agent::tools::skills::linked_files::{
    bucket_specific_extensions, collect_bucket_files, discover_linked_files, hidden, SkillFiles,
};
use perry_hermes_agent::tools::skills::list::SkillListTool;
use perry_hermes_agent::tools::skills::skill::Skill;
use perry_hermes_agent::tools::skills::view::{
    read_linked_file, refuse_path, refuse_probe, show_skill, strip_frontmatter, LinkedProbe,
    SkillPlan, SkillScan, SkillViewTool,
};

fn skill(category: Option<&str>, name: &str, description: &str) -> Skill {
    let dir = match category {
        Some(c) => format!("/skills/{c}/{name}"),
        None => format!("/skills/{name}"),
    };
    Skill {
        name: name.to_string(),
        qualified_name: match category {
            Some(c) => format!("{c}/{name}"),
            None => name.to_string(),
        },
        description: description.to_string(),
        category: category.map(|s| s.to_string()),
        source_path: format!("{dir}/SKILL.md"),
    }
}

fn strings(items: &[&str]) -> Vec<String> {
    items.iter().map(|s| s.to_string()).collect()
}

fn list_at(reply: &Json, key: &str) -> Vec<Json> {
    match reply.get(key) {
        Some(Json::Array(items)) => items.iter().map(|j| j.copy()).collect(),
        _ => panic!("no list under {key} in {}", reply.render()),
    }
}

fn names(reply: &Json) -> Vec<String> {
    list_at(reply, "skills").iter().map(|s| s.text_at("name").unwrap().to_string()).collect()
}

fn list(args: &str, skills: Vec<Skill>) -> Json {
    SkillListTool::new("/skills".to_string()).reply(&Json::parse(args).unwrap(), &Ok(skills))
}

#[test]
fn skills_list_returns_empty_for_missing_dir() {
    let v = list("{}", Vec::new());
    assert!(v.flag_at("success"));
    assert_eq!(v.number_at("count"), Some(0));
}

#[test]
fn skills_list_returns_metadata_for_installed_skills() {
    let v = list(
        "{}",
        vec![skill(None, "alpha", "The alpha skill"), skill(None, "beta", "The beta skill")],
    );
    assert!(v.flag_at("success"));
    assert_eq!(v.number_at("count"), Some(2));
    assert_eq!(names(&v), vec!["alpha", "beta"]);
    let alpha = &list_at(&v, "skills")[0];
    assert_eq!(alpha.text_at("description"), Some("The alpha skill"));
    assert!(alpha.get("qualified_name").is_none());
    assert!(v.text_at("hint").unwrap().contains("skill_view"));
}

#[test]
fn skills_list_filters_by_category() {
    let v = list(
        "{\"category\":\"mlops\"}",
        vec![skill(Some("mlops"), "axolotl", "LLM fine-tuning"), skill(Some("general"), "notes", "n")],
    );
    assert_eq!(v.number_at("count"), Some(1));
    assert_eq!(names(&v), vec!["axolotl"]);
}

#[test]
fn skills_list_sorts_by_category_then_name() {
    let v = list(
        "{}",
        vec![
            skill(Some("b"), "zeta", "d"),
            skill(Some("a"), "alpha", "d"),
            skill(Some("a"), "beta", "d"),
            skill(Some("b"), "alpha", "d"),
        ],
    );
    assert_eq!(names(&v), vec!["alpha", "beta", "alpha", "zeta"]);
}

#[test]
fn skills_list_tells_of_a_failed_scan() {
    let v = SkillListTool::new("/skills".to_string())
        .reply(&Json::object(), &Err("denied".to_string()));
    assert!(!v.flag_at("success"));
    assert!(v.text_at("error").unwrap().contains("denied"));
}

fn tool() -> SkillViewTool {
    SkillViewTool::new("/skills".to_string())
}

fn found(skills: Vec<Skill>) -> SkillScan {
    SkillScan::Found { skills, direct_dir: false }
}

#[test]
fn skill_view_loads_main_body_with_frontmatter_stripped() {
    let s = skill(None, "alpha", "The alpha skill");
    let text = "---\nname: alpha\ndescription: The alpha skill\n---\n\n# Alpha\n\nReal body\n";
    let v = show_skill(&s, &Ok(text.as_bytes().to_vec()), Json::object());
    assert!(v.flag_at("success"));
    let content = v.text_at("content").unwrap();
    assert!(!content.contains("name: alpha"), "frontmatter leaked: {content}");
    assert!(content.contains("# Alpha"));
    assert!(content.contains("Real body"));
    assert_eq!(v.text_at("readiness_status"), Some("available"));
    assert!(matches!(v.get("linked_files"), Some(Json::Object(_))));
    assert_eq!(strip_frontmatter("no frontmatter"), "no frontmatter");
}

#[test]
fn skill_view_loads_linked_reference_file() {
    let s = skill(None, "alpha", "The alpha skill");
    assert_eq!(tool().root_of(&s), "/skills/alpha");
    let v = read_linked_file(
        &s,
        "references/api.md",
        "/skills/alpha/references/api.md",
        &Ok(b"# API\n\nendpoint docs".to_vec()),
    );
    assert!(v.flag_at("success"));
    assert!(v.text_at("content").unwrap().contains("endpoint docs"));
    assert_eq!(v.text_at("file"), Some("references/api.md"));
    assert_eq!(v.text_at("file_type"), Some(".md"));
}

#[test]
fn skill_view_reports_not_found_with_available_skills() {
    let v = tool().select("missing", &found(vec![skill(None, "alpha", "d")])).err().unwrap();
    assert!(!v.flag_at("success"));
    assert!(v.text_at("error").unwrap().contains("missing"));
    assert!(list_at(&v, "available_skills").iter().any(|n| n.as_str() == Some("alpha")));
}

#[test]
fn skill_view_rejects_traversal_in_file_path() {
    let v = refuse_path("../outside.txt").expect("outside is refused");
    assert!(!v.flag_at("success"));
    assert!(v.text_at("error").unwrap().contains("escapes"));
    assert!(refuse_path("references/api.md").is_none());
    let v = refuse_probe(
        "link",
        &LinkedProbe::Found {
            root: "/skills/alpha".to_string(),
            target: "/etc/passwd".to_string(),
            is_file: true,
        },
    )
    .expect("a link that leads outside is refused");
    assert!(v.text_at("error").unwrap().contains("escapes"));
}

#[test]
fn skill_view_rejects_missing_linked_file() {
    let v = refuse_probe("references/missing.md", &LinkedProbe::Missing).unwrap();
    assert!(!v.flag_at("success"));
    assert!(v.text_at("error").unwrap().contains("not found"));
    assert!(refuse_probe("x", &LinkedProbe::RootFailed("gone".to_string())).is_some());
    assert!(refuse_probe(
        "references/a.md",
        &LinkedProbe::Found {
            root: "/skills/alpha".to_string(),
            target: "/skills/alpha/references/a.md".to_string(),
            is_file: true,
        },
    )
    .is_none());
}

#[test]
fn skill_view_rejects_plugin_qualified_name() {
    match tool().plan(&Json::parse("{\"name\":\"plugin:alpha\"}").unwrap()) {
        Ok(SkillPlan::Reply(v)) => {
            assert!(!v.flag_at("success"));
            assert!(v.text_at("error").unwrap().to_lowercase().contains("plugin"));
        }
        _ => panic!("plugins are refused"),
    }
    assert!(tool().plan(&Json::object()).is_err());
    match tool().plan(&Json::parse("{\"name\":\"a\",\"file_path\":\"b\"}").unwrap()) {
        Ok(SkillPlan::Show(r)) => {
            assert_eq!(r.name, "a");
            assert_eq!(r.file_path.as_deref(), Some("b"));
        }
        _ => panic!("this is a skill to show"),
    }
}

#[test]
fn skill_view_returns_ambiguous_error_for_colliding_names() {
    let two = vec![skill(Some("cat1"), "dupe", "first"), skill(Some("cat2"), "dupe", "second")];
    let v = tool().select("dupe", &found(two)).err().unwrap();
    assert!(!v.flag_at("success"));
    assert!(v.text_at("error").unwrap().to_lowercase().contains("ambiguous"));
    let two = vec![skill(Some("cat1"), "dupe", "first"), skill(Some("cat2"), "dupe", "second")];
    assert_eq!(tool().select("cat2/dupe", &found(two)).ok(), Some(1));
}

#[test]
fn skill_view_tells_of_a_failed_scan() {
    assert!(tool().select("a", &SkillScan::NoDir).is_err());
    assert!(tool().select("a", &SkillScan::Failed("x".to_string())).is_err());
}

#[test]
fn skill_view_linked_files_lists_references_templates_assets_scripts() {
    let files = SkillFiles {
        references: strings(&["references/file.md", "references/notes.txt"]),
        templates: strings(&["templates/file.md"]),
        assets: strings(&["assets/file.md"]),
        scripts: strings(&["scripts/file.py"]),
        names: strings(&["SKILL.md"]),
    };
    let lf = discover_linked_files(&files);
    assert_eq!(
        lf.get("references").unwrap().render(),
        "[\"references/file.md\",\"references/notes.txt\"]"
    );
    assert_eq!(lf.get("templates").unwrap().render(), "[\"templates/file.md\"]");
    assert_eq!(lf.get("assets").unwrap().render(), "[\"assets/file.md\"]");
    assert_eq!(lf.get("scripts").unwrap().render(), "[\"scripts/file.py\"]");
}

#[test]
fn linked_files_are_sorted_and_limited_by_kind() {
    assert!(bucket_specific_extensions("references").is_none());
    assert!(bucket_specific_extensions("scripts").is_some());
    let found = collect_bucket_files("scripts", &strings(&["scripts/b.py", "scripts/a.sh", "scripts/x.exe"]));
    assert!(!found.iter().any(|f| f.ends_with(".exe")));
    assert!(found.iter().any(|f| f.ends_with("b.py")));
    assert_eq!(found, strings(&["scripts/a.sh", "scripts/b.py"]));
    assert!(hidden(".git"));
    assert!(!hidden("git"));
}

#[test]
fn linked_files_of_one_text_are_all_listed() {
    let found =
        collect_bucket_files("assets", &strings(&["assets/b", "assets/a\u{FFFD}", "assets/a\u{FFFD}"]));
    assert_eq!(found, strings(&["assets/a\u{FFFD}", "assets/a\u{FFFD}", "assets/b"]));
}
