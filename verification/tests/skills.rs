use std::collections::BTreeMap;

use rolava::admin::skill_store::{is_entry_file, validate_relative_file_path};
use rolava::skills::loader::{
    check_metadata, discovery_step, virtual_path, DiscoveryStep, MetadataError, MetadataReader,
    MetadataStep, SkillCatalog, MAX_DIRECTORY_DEPTH, MAX_METADATA_BYTES,
};
use rolava::skills::model::{SkillEntry, SkillMetadata};

fn entry(name: &str, path: &str) -> SkillEntry {
    SkillEntry {
        metadata: SkillMetadata {
            name: name.to_string(),
            description: format!("about {}", name),
        },
        virtual_path: virtual_path(path),
        path: path.to_string(),
    }
}

/// What a skill says of itself; nothing where its document cannot be read.
fn read_yaml(yaml: &str) -> Option<(String, String)> {
    let mut read: BTreeMap<String, String> = serde_yaml::from_str(yaml).ok()?;
    Some((read.remove("name")?, read.remove("description")?))
}

fn read(content: &str) -> Result<SkillMetadata, Option<MetadataError>> {
    let mut lines = content.split_inclusive('\n');
    let mut reader = MetadataReader::new();
    loop {
        match reader.receive(lines.next()) {
            MetadataStep::NextLine => {}
            MetadataStep::Done(yaml) => {
                let (name, description) = read_yaml(&yaml).ok_or(None)?;
                return check_metadata(&name, &description).map_err(Some);
            }
            MetadataStep::Failed(error) => return Err(Some(error)),
        }
    }
}

#[test]
fn discovers_nested_metadata_without_reading_body_and_rejects_duplicates() {
    let metadata = read(
        "\u{feff}---\r\nname: review\r\ndescription: >\r\n  review memories\r\n---\r\nbody that is not read",
    )
    .unwrap();
    assert_eq!(metadata.name, "review");
    assert_eq!(metadata.description, "review memories");
    let mut catalog = SkillCatalog::new();
    assert!(catalog.is_empty());
    catalog
        .insert(SkillEntry {
            metadata,
            virtual_path: virtual_path("bundle/review/SKILL.md"),
            path: "bundle/review/SKILL.md".to_string(),
        })
        .unwrap();
    assert_eq!(catalog.len(), 1);
    assert_eq!(
        catalog.get("review").unwrap().metadata.description,
        "review memories"
    );
    let duplicate = catalog.insert(entry("review", "SKILL.md")).unwrap_err();
    assert_eq!(duplicate.name, "review");
    assert_eq!(catalog.len(), 1);
}

#[test]
fn rejects_invalid_and_unbounded_metadata() {
    assert_eq!(read("name: a"), Err(Some(MetadataError::MissingStart)));
    assert_eq!(read("---\nname: a\n---\n"), Err(None));
    assert_eq!(
        read("---\nname: a\ndescription: [bad]\n---\n"),
        Err(None)
    );
    let unbounded = format!(
        "---\nname: a\ndescription: {}\n---\n",
        "a".repeat(MAX_METADATA_BYTES as usize)
    );
    assert_eq!(
        read(&unbounded[..MAX_METADATA_BYTES as usize]),
        Err(Some(MetadataError::MissingEnd))
    );
    assert_eq!(
        read("---\nname: A\ndescription: b\n---\n"),
        Err(Some(MetadataError::BadName))
    );
    assert_eq!(
        check_metadata("a", "  "),
        Err(MetadataError::EmptyDescription)
    );
}

#[test]
fn skills_are_listed_by_name() {
    let mut catalog = SkillCatalog::new();
    for name in ["write", "ask", "read"] {
        catalog.insert(entry(name, "SKILL.md")).unwrap();
    }
    let names: Vec<&str> = catalog
        .iter()
        .iter()
        .map(|skill| skill.metadata.name.as_str())
        .collect();
    assert_eq!(names, vec!["ask", "read", "write"]);
    catalog.retain_enabled(&vec!["write".to_string(), "ask".to_string()]);
    assert!(catalog.get("read").is_none());
    let list = catalog.render_prompt_list();
    assert!(list.contains("about ask"));
    assert!(!list.contains("about read"));
}

#[test]
fn paths_of_skill_files_stay_inside() {
    assert!(validate_relative_file_path("notes/a.md").is_ok());
    assert!(validate_relative_file_path("../a.md").is_err());
    assert!(validate_relative_file_path("/etc/passwd").is_err());
    assert!(validate_relative_file_path("").is_err());
    assert!(is_entry_file("SKILL.md"));
    assert!(!is_entry_file("notes/SKILL.md"));
}

#[test]
fn links_and_other_files_are_no_skills() {
    let step = discovery_step;
    assert_eq!(step("SKILL.md", true, false, false, 0), DiscoveryStep::Skip);
    assert_eq!(step("SKILL.md", false, false, true, 0), DiscoveryStep::Load);
    assert_eq!(step("skill.md", false, false, true, 0), DiscoveryStep::Skip);
    assert_eq!(step("a", false, true, false, 0), DiscoveryStep::Descend);
    assert_eq!(step("a", false, true, false, 15), DiscoveryStep::Descend);
    assert_eq!(
        step("a", false, true, false, MAX_DIRECTORY_DEPTH),
        DiscoveryStep::TooDeep
    );
    assert_eq!(step("a", true, true, false, 99), DiscoveryStep::Skip);
    assert_eq!(step("a", false, false, false, 0), DiscoveryStep::Skip);
}

#[test]
fn a_scalar_is_read_as_a_text() {
    let metadata = read("---\nname: 2024\ndescription: true\n---\n").unwrap();
    assert_eq!(metadata.name, "2024");
    assert_eq!(metadata.description, "true");
}
