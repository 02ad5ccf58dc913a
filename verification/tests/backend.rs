use doggo_core::compiler_backend::ClangCompilerBackend;
use doggo_core::compiler_backend::ExtraCompileOptions;
use doggo_core::compiler_backend::OptLevel;
use doggo_core::compiled_path;
use doggo_core::interner::StringPool;
use doggo_core::manifest::parse_manifest;
use doggo_core::project::modify_filename;
use doggo_core::project::Package;
use doggo_core::target_is_msvc;
use doggo_core::target_is_windows;

fn backend() -> ClangCompilerBackend {
    ClangCompilerBackend::from_tool_paths(
        "clang".to_string(),
        "llvm-lib".to_string(),
        "llvm-ar".to_string(),
    )
}

fn options(target: &str) -> ExtraCompileOptions {
    ExtraCompileOptions {
        opt_level: OptLevel::Two,
        generate_debug: false,
        lto: false,
        target: target.to_string(),
    }
}

#[test]
fn triple_classification() {
    assert!(target_is_msvc("x86_64-pc-windows-msvc"));
    assert!(!target_is_msvc("x86_64-pc-windows-gnu"));
    assert!(!target_is_msvc("msv"));
    assert!(target_is_windows("x86_64-pc-windows-msvc"));
    assert!(target_is_windows("x86_64-pc-windows-gnu"));
    assert!(!target_is_windows("x86_64-pc-linux-gnu"));
}

#[test]
fn msvc_triple_selects_msvc_conventions() {
    let b = backend();
    let opts = options("x86_64-pc-windows-msvc");
    assert_eq!(b.get_object_suffix(&opts), ".obj");
    assert_eq!(b.get_static_suffix(&opts), ".lib");
    assert_eq!(b.get_library_prefix(&opts), "");
    assert_eq!(b.get_dynamic_suffix(&opts), ".dll");
    assert_eq!(b.get_executable_suffix(&opts), ".exe");
}

#[test]
fn linux_triple_selects_unix_conventions() {
    let b = backend();
    let opts = options("x86_64-pc-linux-gnu");
    assert_eq!(b.get_object_suffix(&opts), ".o");
    assert_eq!(b.get_static_suffix(&opts), ".a");
    assert_eq!(b.get_library_prefix(&opts), "lib");
    assert_eq!(b.get_dynamic_suffix(&opts), ".so");
    assert_eq!(b.get_executable_suffix(&opts), "");
}

#[test]
fn opt_levels_spell_their_flags() {
    assert_eq!(OptLevel::Zero.string(), "0");
    assert_eq!(OptLevel::One.string(), "1");
    assert_eq!(OptLevel::Two.string(), "2");
    assert_eq!(OptLevel::Three.string(), "3");
    assert_eq!(OptLevel::Fast.string(), "fast");
    assert_eq!(OptLevel::Size.string(), "s");
    assert_eq!(OptLevel::SizeAggressive.string(), "z");
}

#[test]
fn render_only_compile_returns_the_exact_command() {
    let b = backend();
    let opts = ExtraCompileOptions {
        opt_level: OptLevel::Two,
        generate_debug: true,
        lto: false,
        target: "x86_64-pc-linux-gnu".to_string(),
    };
    let cmd = b.compile_object_command(
        "src/main.c",
        "out/main.o",
        &vec!["include".to_string()],
        &vec!["NDEBUG".to_string()],
        &opts,
    );
    assert_eq!(
        cmd,
        vec![
            "clang",
            "-c",
            "src/main.c",
            "-o",
            "out/main.o",
            "-Iinclude",
            "-DNDEBUG",
            "-O2",
            "-ggdb3",
            "-MD",
            "-target",
            "x86_64-pc-linux-gnu",
            "-fPIC",
        ]
    );
}

#[test]
fn msvc_compile_command_omits_pic() {
    let b = backend();
    let opts = options("x86_64-pc-windows-msvc");
    let cmd = b.compile_object_command("a.c", "a.obj", &Vec::new(), &Vec::new(), &opts);
    assert_eq!(
        cmd,
        vec![
            "clang",
            "-c",
            "a.c",
            "-o",
            "a.obj",
            "-O2",
            "-MD",
            "-target",
            "x86_64-pc-windows-msvc",
        ]
    );
}

#[test]
fn archive_command_follows_the_target() {
    let b = backend();
    let objects = vec!["a.o".to_string(), "b.o".to_string()];
    let unix = b.archive_objects_command(&objects, "libx.a", &options("x86_64-pc-linux-gnu"));
    assert_eq!(unix, vec!["llvm-ar", "rcs", "libx.a", "a.o", "b.o"]);
    let msvc = b.archive_objects_command(&objects, "x.lib", &options("x86_64-pc-windows-msvc"));
    assert_eq!(msvc, vec!["llvm-lib", "/OUT:x.lib", "a.o", "b.o"]);
}

#[test]
fn link_command_wraps_static_libraries_on_unix() {
    let b = backend();
    let opts = ExtraCompileOptions {
        opt_level: OptLevel::Zero,
        generate_debug: false,
        lto: true,
        target: "x86_64-pc-linux-gnu".to_string(),
    };
    let cmd = b.link_objects_command(
        &vec!["a.o".to_string()],
        "app",
        &vec!["libs".to_string()],
        &vec!["m".to_string()],
        &vec!["mine".to_string()],
        false,
        &opts,
    );
    assert_eq!(
        cmd,
        vec![
            "clang",
            "a.o",
            "-Llibs",
            "-lm",
            "-Wl,--whole-archive",
            "-lmine",
            "-Wl,--no-whole-archive",
            "-o",
            "app",
            "-target",
            "x86_64-pc-linux-gnu",
            "-flto",
        ]
    );
}

#[test]
fn link_command_marks_dynamic_libraries() {
    let b = backend();
    let opts = options("x86_64-pc-windows-msvc");
    let cmd = b.link_objects_command(
        &vec!["a.obj".to_string()],
        "x.dll",
        &Vec::new(),
        &Vec::new(),
        &Vec::new(),
        true,
        &opts,
    );
    assert_eq!(
        cmd,
        vec![
            "clang",
            "a.obj",
            "-shared",
            "-o",
            "x.dll",
            "-target",
            "x86_64-pc-windows-msvc",
        ]
    );
}

#[test]
fn artifact_names_follow_the_conventions() {
    let b = backend();
    let mut pool = StringPool::new();
    let mk = |pool: &mut StringPool, text: &str| {
        let m = parse_manifest(pool, text).unwrap();
        Package::from_manifest(pool, "/p".to_string(), m).unwrap()
    };
    let exe = mk(&mut pool, "[package]\nname = \"p\"\n");
    let dy = mk(&mut pool, "[package]\nname = \"p\"\noutput = \"dynamic\"\n");
    let st = mk(&mut pool, "[package]\nname = \"p\"\noutput = \"static\"\n");
    let linux = options("x86_64-pc-linux-gnu");
    let msvc = options("x86_64-pc-windows-msvc");
    assert_eq!(modify_filename(&exe, &b, &linux, "p").as_str(), "p");
    assert_eq!(modify_filename(&exe, &b, &msvc, "p").as_str(), "p.exe");
    assert_eq!(modify_filename(&dy, &b, &linux, "p").as_str(), "libp.so");
    assert_eq!(modify_filename(&dy, &b, &msvc, "p").as_str(), "p.dll");
    assert_eq!(modify_filename(&st, &b, &linux, "p").as_str(), "libp.a");
    assert_eq!(modify_filename(&st, &b, &msvc, "p").as_str(), "p.lib");
}

#[test]
fn compiled_path_sits_under_the_build_directory() {
    assert_eq!(compiled_path("demo").as_str(), ".doggo/demo");
}
