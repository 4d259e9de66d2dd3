use playlist_formatter::types::OutputFormat;
use playlist_formatter::utils::{
    normalize_path, output_path_asked, with_output_extension, writer_for_extension, PathComponent,
};

fn normal(name: &str) -> PathComponent {
    PathComponent::Normal(name.to_string())
}

#[test]
fn normalize_drops_current_and_parent_references() {
    let path = vec![
        PathComponent::RootDir,
        normal("music"),
        PathComponent::CurDir,
        normal("sets"),
        PathComponent::ParentDir,
        normal("lists"),
        normal("a.txt"),
    ];
    assert_eq!(
        normalize_path(&path),
        vec![PathComponent::RootDir, normal("music"), normal("lists"), normal("a.txt")]
    );
}

#[test]
fn normalize_keeps_root_and_prefix_under_parent_references() {
    assert_eq!(
        normalize_path(&[PathComponent::RootDir, PathComponent::ParentDir, normal("a")]),
        vec![PathComponent::RootDir, normal("a")]
    );
    let prefix = PathComponent::Prefix("C:".to_string());
    assert_eq!(
        normalize_path(&[
            prefix.clone(),
            PathComponent::RootDir,
            normal("a"),
            PathComponent::ParentDir,
            PathComponent::ParentDir,
            normal("b")
        ]),
        vec![prefix.clone(), PathComponent::RootDir, normal("b")]
    );
    assert_eq!(normalize_path(&[prefix.clone(), PathComponent::ParentDir]), vec![prefix]);
}

#[test]
fn normalize_relative_paths() {
    assert_eq!(normalize_path(&[]), Vec::<PathComponent>::new());
    assert_eq!(normalize_path(&[PathComponent::CurDir]), Vec::<PathComponent>::new());
    assert_eq!(
        normalize_path(&[PathComponent::ParentDir, normal("a")]),
        vec![normal("a")]
    );
    assert_eq!(
        normalize_path(&[normal("a"), normal("b"), PathComponent::ParentDir, PathComponent::ParentDir, PathComponent::ParentDir, normal("c")]),
        vec![normal("c")]
    );
    assert_eq!(
        normalize_path(&[PathComponent::CurDir, normal("a"), PathComponent::CurDir]),
        vec![normal("a")]
    );
}

#[test]
fn path_that_is_asked_for() {
    assert_eq!(output_path_asked(None), None);
    assert_eq!(output_path_asked(Some("".to_string())), None);
    assert_eq!(output_path_asked(Some("  \t".to_string())), None);
    assert_eq!(output_path_asked(Some(" out.csv ".to_string())), Some("out.csv".to_string()));
    assert_eq!(output_path_asked(Some("my set.txt".to_string())), Some("my set.txt".to_string()));
}

#[test]
fn output_path_gets_an_extension() {
    assert_eq!(with_output_extension("out.csv".to_string(), Some("csv")), "out.csv");
    assert_eq!(with_output_extension("out.TXT".to_string(), Some("TXT")), "out.TXT");
    assert_eq!(with_output_extension("out.xlsx".to_string(), Some("xlsx")), "out.xlsx");
    assert_eq!(with_output_extension("out".to_string(), None), "out.csv");
    assert_eq!(with_output_extension("set-2024.01.01".to_string(), Some("01")), "set-2024.01.01.csv");
    assert_eq!(with_output_extension("out.mp3".to_string(), Some("mp3")), "out.mp3.csv");
    assert_eq!(with_output_extension("out.".to_string(), Some("")), "out..csv");
}

#[test]
fn writer_by_extension() {
    assert_eq!(writer_for_extension("csv"), Some(OutputFormat::Csv));
    assert_eq!(writer_for_extension("TXT"), Some(OutputFormat::Txt));
    assert_eq!(writer_for_extension("Xlsx"), Some(OutputFormat::Xlsx));
    assert_eq!(writer_for_extension("xls"), None);
    assert_eq!(writer_for_extension(" csv"), None);
    assert_eq!(writer_for_extension(""), None);
}
