use espanso_settings::patch_setup;

/// Mirrors the relevant shape of `include/wx/msw/setup.h`, including the
/// non-MSVC `#else` branch that already defines the setting to `0`.
const ORIGINAL_SETUP: &str = "\
#if defined(_MSC_VER)
#define wxUSE_GRAPHICS_CONTEXT 1
#else
#define wxUSE_GRAPHICS_CONTEXT 0
#endif
#define wxUSE_ACTIVITYINDICATOR 1 // wxActivityIndicator
";

const PATCHED_SETUP: &str = "\
#if defined(_MSC_VER)
#define wxUSE_GRAPHICS_CONTEXT 0 // espanso: avoid GDI+ symbol collision
#else
#define wxUSE_GRAPHICS_CONTEXT 0
#endif
#define wxUSE_ACTIVITYINDICATOR 0 // wxActivityIndicator
";

#[test]
fn patches_both_setup_markers() {
    let (patched, changed) = patch_setup(ORIGINAL_SETUP).unwrap();

    assert_eq!(patched, PATCHED_SETUP);
    assert!(changed);
}

#[test]
fn accepts_an_already_patched_tree_without_changes() {
    let (patched, changed) = patch_setup(PATCHED_SETUP).unwrap();

    assert_eq!(patched, PATCHED_SETUP);
    assert!(!changed);
}

#[test]
fn rejects_a_missing_graphics_context_marker() {
    let error = patch_setup("#define wxUSE_ACTIVITYINDICATOR 1\n").unwrap_err();

    assert!(error.contains("wxUSE_GRAPHICS_CONTEXT"));
    assert!(error.contains("found 0 original and 0 patched"));
}

#[test]
fn rejects_a_missing_activity_indicator_marker() {
    let error = patch_setup("#define wxUSE_GRAPHICS_CONTEXT 1\n").unwrap_err();

    assert!(error.contains("wxUSE_ACTIVITYINDICATOR"));
}

#[test]
fn rejects_repeated_markers() {
    let repeated = format!("{ORIGINAL_SETUP}{ORIGINAL_SETUP}");
    let error = patch_setup(&repeated).unwrap_err();

    assert!(error.contains("found 2 original and 0 patched"));
}

#[test]
fn reports_the_patched_file_in_every_error() {
    let error = patch_setup("unrecognized setup").unwrap_err();

    assert!(error.contains("include/wx/msw/setup.h"));
}

#[test]
fn patching_twice_is_a_no_op_the_second_time() {
    let (once, changed_once) = patch_setup(ORIGINAL_SETUP).unwrap();
    let (twice, changed_twice) = patch_setup(&once).unwrap();
    assert!(changed_once);
    assert!(!changed_twice);
    assert_eq!(once, twice);
}

#[test]
fn a_half_patched_header_finishes_the_other_marker() {
    let half = "#define wxUSE_GRAPHICS_CONTEXT 0 // espanso: avoid GDI+ symbol collision\n#define wxUSE_ACTIVITYINDICATOR 1\n";
    let (patched, changed) = patch_setup(half).unwrap();
    assert!(changed);
    assert_eq!(
        patched,
        "#define wxUSE_GRAPHICS_CONTEXT 0 // espanso: avoid GDI+ symbol collision\n#define wxUSE_ACTIVITYINDICATOR 0\n"
    );
}

#[test]
fn the_error_names_the_exact_counts() {
    let error = patch_setup("#define wxUSE_GRAPHICS_CONTEXT 1\n#define wxUSE_GRAPHICS_CONTEXT 0 // espanso: avoid GDI+ symbol collision\n").unwrap_err();
    assert_eq!(
        error,
        "include/wx/msw/setup.h: wxUSE_GRAPHICS_CONTEXT: expected exactly one original or patched marker, found 1 original and 1 patched"
    );
}
