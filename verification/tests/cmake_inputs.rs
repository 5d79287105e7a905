use qpm_cli::cmake::{extern_cmake_text, extern_dependencies, CompileOptions, ExtraFile};
use qpm_cli::workspace::{first_missing_binary, install_step, InstallStep};

fn extra(path: &str, is_file: bool) -> ExtraFile {
    ExtraFile { path: path.to_string(), is_file }
}

#[test]
fn extern_dependencies_take_extra_files_from_the_first_project_entry() {
    let options = CompileOptions {
        include_paths: Some(vec!["inc".to_string()]),
        system_includes: None,
        cpp_features: None,
        cpp_flags: None,
        c_flags: None,
    };
    let packages = vec![
        ("a".to_string(), "a".to_string(), None),
        ("b".to_string(), "b-pkg".to_string(), Some(options)),
    ];
    let entries = vec![
        ("c".to_string(), Some(vec![extra("c.so", true)])),
        ("b".to_string(), Some(vec![extra("lib.so", true), extra("src-dir", false)])),
        ("b".to_string(), None),
    ];
    let deps = extern_dependencies(packages, &entries);
    assert_eq!(deps.len(), 2);
    assert_eq!(deps[0].id, "a");
    assert!(deps[0].extra_files.is_none());
    assert!(deps[0].compile_options.is_none());
    assert_eq!(deps[1].id, "b");
    assert_eq!(deps[1].package_id, "b-pkg");
    let files = deps[1].extra_files.as_ref().unwrap();
    assert_eq!(files.len(), 2);
    assert_eq!(files[0].path, "lib.so");
    assert!(files[0].is_file);
    assert_eq!(files[1].path, "src-dir");
    assert!(!files[1].is_file);
    let text = extern_cmake_text(&deps);
    assert!(text.contains("target_include_directories(${COMPILE_ID} PRIVATE ${EXTERN_DIR}/includes/b-pkg/inc)\n"));
    assert!(text.contains("add_library(${COMPILE_ID} SHARED ${EXTERN_DIR}/includes/b/lib.so)"));
    assert!(text.contains("RECURSE_FILES(src_dir_b_local_extra_c ${EXTERN_DIR}/includes/b/src-dir/*.c)\n"));
}

#[test]
fn install_step_per_folder_state() {
    assert_eq!(install_step(false, false), InstallStep::Create);
    assert_eq!(install_step(false, true), InstallStep::Create);
    assert_eq!(install_step(true, true), InstallStep::Replace);
    assert_eq!(install_step(true, false), InstallStep::Refuse);
}

#[test]
fn first_missing_binary_is_the_earliest_absent_one() {
    assert_eq!(first_missing_binary(&vec![true, false, false]), Some(1));
    assert_eq!(first_missing_binary(&vec![true, true]), None);
    assert_eq!(first_missing_binary(&vec![]), None);
}
