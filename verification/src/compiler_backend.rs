use vstd::prelude::*;
use vstd::string::StrSliceExecFns;
use vstd::string::StringExecFns;

use crate::spec_target_is_msvc;
use crate::spec_target_is_windows;
use crate::target_is_msvc;
use crate::target_is_windows;

verus! {

/// The optimization level handed to the compiler. Different compilers spell
/// their levels differently, but these cover the common ground.
#[derive(Debug, Clone, Copy, PartialEq, Eq, Structural)]
pub enum OptLevel {
    Zero,
    One,
    Two,
    Three,
    Fast,
    Size,
    SizeAggressive,
}

impl OptLevel {
    /// How this level is spelled inside an optimization flag.
    pub open spec fn spec_string(self) -> Seq<char> {
        match self {
            OptLevel::Zero => "0"@,
            OptLevel::One => "1"@,
            OptLevel::Two => "2"@,
            OptLevel::Three => "3"@,
            OptLevel::Fast => "fast"@,
            OptLevel::Size => "s"@,
            OptLevel::SizeAggressive => "z"@,
        }
    }

    /// The spelling of this level for the compiler's optimization flag.
    pub fn string(self) -> (r: &'static str)
        ensures
            r@ == self.spec_string(),
    {
        match self {
            OptLevel::Zero => "0",
            OptLevel::One => "1",
            OptLevel::Two => "2",
            OptLevel::Three => "3",
            OptLevel::Fast => "fast",
            OptLevel::Size => "s",
            OptLevel::SizeAggressive => "z",
        }
    }
}

impl Default for OptLevel {
    /// The default level performs no optimization.
    fn default() -> (r: Self)
        ensures
            r == OptLevel::Zero,
    {
        OptLevel::Zero
    }
}

/// A build profile: it is passed to every backend call and never mutated
/// mid-build. User-changeable compiler-specific switches belong here.
pub struct ExtraCompileOptions {
    pub opt_level: OptLevel,
    pub generate_debug: bool,
    pub lto: bool,
    pub target: String,
}

impl Default for ExtraCompileOptions {
    /// The default profile: no optimization, no debug info, no link-time
    /// optimization, and an empty target triple.
    fn default() -> (r: Self)
        ensures
            r.opt_level == OptLevel::Zero,
            !r.generate_debug,
            !r.lto,
            r.target@ == Seq::<char>::empty(),
    {
        ExtraCompileOptions {
            opt_level: OptLevel::Zero,
            generate_debug: false,
            lto: false,
            target: String::new(),
        }
    }
}

/// The contents of a vector of strings, as sequences of characters.
pub open spec fn views_of(s: Seq<String>) -> Seq<Seq<char>> {
    s.map_values(|x: String| x@)
}

/// Each item prefixed with one flag, as in turning directories into
/// include flags.
pub open spec fn prefixed(flag: Seq<char>, items: Seq<Seq<char>>) -> Seq<Seq<char>> {
    items.map_values(|d: Seq<char>| flag + d)
}

/// Appends `item` to the argument list.
fn push_one(args: &mut Vec<String>, item: &str)
    ensures
        views_of(final(args)@) == views_of(old(args)@).push(item@),
{
    args.push(String::from_str(item));
    proof {
        assert(views_of(args@) =~= views_of(old(args)@).push(item@));
    }
}

/// Appends an owned string to the argument list.
fn push_owned(args: &mut Vec<String>, item: String)
    ensures
        views_of(final(args)@) == views_of(old(args)@).push(item@),
{
    let ghost v = item@;
    args.push(item);
    proof {
        assert(views_of(args@) =~= views_of(old(args)@).push(v));
    }
}

/// Appends every item, each prefixed with `flag`.
fn push_prefixed(args: &mut Vec<String>, flag: &str, items: &Vec<String>)
    ensures
        views_of(final(args)@) == views_of(old(args)@) + prefixed(flag@, views_of(items@)),
{
    let mut i: usize = 0;
    while i < items.len()
        invariant
            i <= items@.len(),
            views_of(args@) =~= views_of(old(args)@) + prefixed(flag@, views_of(items@)).subrange(
                0,
                i as int,
            ),
        decreases items@.len() - i,
    {
        let mut f = String::from_str(flag);
        f.append(items[i].as_str());
        let ghost prev = args@;
        let ghost fv = f@;
        args.push(f);
        proof {
            assert(views_of(args@) =~= views_of(prev).push(fv));
            assert(views_of(items@)[i as int] == items@[i as int]@);
            assert(fv == prefixed(flag@, views_of(items@))[i as int]);
            assert(views_of(prev).push(fv) =~= views_of(old(args)@) + prefixed(
                flag@,
                views_of(items@),
            ).subrange(0, i as int + 1));
        }
        i += 1;
    }
    proof {
        assert(prefixed(flag@, views_of(items@)).subrange(0, items@.len() as int) =~= prefixed(
            flag@,
            views_of(items@),
        ));
    }
}

/// Appends every item unchanged.
fn push_all(args: &mut Vec<String>, items: &Vec<String>)
    ensures
        views_of(final(args)@) == views_of(old(args)@) + views_of(items@),
{
    let mut i: usize = 0;
    while i < items.len()
        invariant
            i <= items@.len(),
            views_of(args@) =~= views_of(old(args)@) + views_of(items@).subrange(0, i as int),
        decreases items@.len() - i,
    {
        let item = items[i].clone();
        let ghost prev = args@;
        let ghost fv = item@;
        args.push(item);
        proof {
            assert(views_of(args@) =~= views_of(prev).push(fv));
            assert(fv == views_of(items@)[i as int]);
            assert(views_of(prev).push(fv) =~= views_of(old(args)@) + views_of(items@).subrange(
                0,
                i as int + 1,
            ));
        }
        i += 1;
    }
    proof {
        assert(views_of(items@).subrange(0, items@.len() as int) =~= views_of(items@));
    }
}

/// A target-triple-aware facade over the external toolchain. It holds the
/// already-located paths of the compiler, the MSVC-style librarian and the
/// Unix-style archiver, so no lookup is repeated per invocation; locating
/// them on the host search path is the caller's concern.
pub struct ClangCompilerBackend {
    compiler_path: String,
    lib_path: String,
    ar_path: String,
}

impl ClangCompilerBackend {
    /// The path of the compiler driver.
    pub closed spec fn compiler(self) -> Seq<char> {
        self.compiler_path@
    }

    /// The path of the MSVC-style librarian.
    pub closed spec fn librarian(self) -> Seq<char> {
        self.lib_path@
    }

    /// The path of the Unix-style archiver.
    pub closed spec fn archiver(self) -> Seq<char> {
        self.ar_path@
    }

    /// A backend over toolchain programs that the caller has located.
    pub fn from_tool_paths(compiler_path: String, lib_path: String, ar_path: String) -> (r: Self)
        ensures
            r.compiler() == compiler_path@,
            r.librarian() == lib_path@,
            r.archiver() == ar_path@,
    {
        ClangCompilerBackend { compiler_path, lib_path, ar_path }
    }

    /// The object-file suffix for the profile's target: ".obj" on MSVC
    /// targets, ".o" elsewhere.
    pub fn get_object_suffix(&self, extra_options: &ExtraCompileOptions) -> (r: &'static str)
        ensures
            r@ == if spec_target_is_msvc(extra_options.target@) {
                ".obj"@
            } else {
                ".o"@
            },
    {
        if target_is_msvc(extra_options.target.as_str()) {
            ".obj"
        } else {
            ".o"
        }
    }

    /// The static-library suffix for the profile's target: ".lib" on MSVC
    /// targets, ".a" elsewhere.
    pub fn get_static_suffix(&self, extra_options: &ExtraCompileOptions) -> (r: &'static str)
        ensures
            r@ == if spec_target_is_msvc(extra_options.target@) {
                ".lib"@
            } else {
                ".a"@
            },
    {
        if target_is_msvc(extra_options.target.as_str()) {
            ".lib"
        } else {
            ".a"
        }
    }

    /// The dynamic-library suffix for the profile's target: ".dll" on
    /// Windows targets, ".so" elsewhere.
    pub fn get_dynamic_suffix(&self, extra_options: &ExtraCompileOptions) -> (r: &'static str)
        ensures
            r@ == if spec_target_is_windows(extra_options.target@) {
                ".dll"@
            } else {
                ".so"@
            },
    {
        if target_is_windows(extra_options.target.as_str()) {
            ".dll"
        } else {
            ".so"
        }
    }

    /// The library filename prefix for the profile's target: none on MSVC
    /// targets, "lib" elsewhere.
    pub fn get_library_prefix(&self, extra_options: &ExtraCompileOptions) -> (r: &'static str)
        ensures
            r@ == if spec_target_is_msvc(extra_options.target@) {
                ""@
            } else {
                "lib"@
            },
    {
        if target_is_msvc(extra_options.target.as_str()) {
            ""
        } else {
            "lib"
        }
    }

    /// The executable suffix for the profile's target: ".exe" on Windows
    /// targets, none elsewhere.
    pub fn get_executable_suffix(&self, extra_options: &ExtraCompileOptions) -> (r: &'static str)
        ensures
            r@ == if spec_target_is_windows(extra_options.target@) {
                ".exe"@
            } else {
                ""@
            },
    {
        if target_is_windows(extra_options.target.as_str()) {
            ".exe"
        } else {
            ""
        }
    }
}

/// The name under which an artifact of the given kind is placed, from
/// its base name and the target's conventions: executables carry the
/// executable suffix; libraries carry the library prefix and their
/// static or dynamic suffix.
pub open spec fn spec_artifact_name(
    kind: crate::manifest::PackageKind,
    target: Seq<char>,
    base: Seq<char>,
) -> Seq<char> {
    match kind {
        crate::manifest::PackageKind::Executable => base + (if spec_target_is_windows(target) {
            ".exe"@
        } else {
            ""@
        }),
        crate::manifest::PackageKind::DynamicLibrary => (if spec_target_is_msvc(target) {
            ""@
        } else {
            "lib"@
        }) + base + (if spec_target_is_windows(target) {
            ".dll"@
        } else {
            ".so"@
        }),
        crate::manifest::PackageKind::StaticLibrary => (if spec_target_is_msvc(target) {
            ""@
        } else {
            "lib"@
        }) + base + (if spec_target_is_msvc(target) {
            ".lib"@
        } else {
            ".a"@
        }),
    }
}

/// The exact command that compiles one translation unit to one object:
/// the compiler, compile-only and output flags, include and define flags,
/// the optimization flag, debug info when asked for, depfile generation,
/// the explicit target triple, and position-independent code away from
/// MSVC targets.
pub open spec fn spec_compile_command(
    compiler: Seq<char>,
    source: Seq<char>,
    output: Seq<char>,
    include_dirs: Seq<Seq<char>>,
    defines: Seq<Seq<char>>,
    opts: ExtraCompileOptions,
) -> Seq<Seq<char>> {
    seq![compiler, "-c"@, source, "-o"@, output] + prefixed("-I"@, include_dirs) + prefixed(
        "-D"@,
        defines,
    ) + seq!["-O"@ + opts.opt_level.spec_string()] + (if opts.generate_debug {
        seq!["-ggdb3"@]
    } else {
        Seq::<Seq<char>>::empty()
    }) + seq!["-MD"@, "-target"@, opts.target@] + (if !spec_target_is_msvc(opts.target@) {
        seq!["-fPIC"@]
    } else {
        Seq::<Seq<char>>::empty()
    })
}

/// The exact command that archives objects into a static library: the
/// MSVC-style librarian with an output flag, or the Unix-style archiver
/// with its replace-create-index mode, then the objects.
pub open spec fn spec_archive_command(
    librarian: Seq<char>,
    archiver: Seq<char>,
    objects: Seq<Seq<char>>,
    output: Seq<char>,
    opts: ExtraCompileOptions,
) -> Seq<Seq<char>> {
    if spec_target_is_msvc(opts.target@) {
        seq![librarian, "/OUT:"@ + output] + objects
    } else {
        seq![archiver, "rcs"@, output] + objects
    }
}

/// The exact command that links objects and libraries into an executable
/// or dynamic library: the compiler, the objects, library search paths,
/// dynamic libraries, static libraries inside a whole-archive wrapper on
/// non-MSVC targets, the shared flag when a dynamic library is wanted, the
/// output, the target triple, and link-time optimization when asked for.
pub open spec fn spec_link_command(
    compiler: Seq<char>,
    objects: Seq<Seq<char>>,
    output: Seq<char>,
    lib_paths: Seq<Seq<char>>,
    dynamic_libs: Seq<Seq<char>>,
    static_libs: Seq<Seq<char>>,
    dynamic_library: bool,
    opts: ExtraCompileOptions,
) -> Seq<Seq<char>> {
    seq![compiler] + objects + prefixed("-L"@, lib_paths) + prefixed("-l"@, dynamic_libs) + (
    if !spec_target_is_msvc(opts.target@) {
        seq!["-Wl,--whole-archive"@]
    } else {
        Seq::<Seq<char>>::empty()
    }) + prefixed("-l"@, static_libs) + (if !spec_target_is_msvc(opts.target@) {
        seq!["-Wl,--no-whole-archive"@]
    } else {
        Seq::<Seq<char>>::empty()
    }) + (if dynamic_library {
        seq!["-shared"@]
    } else {
        Seq::<Seq<char>>::empty()
    }) + seq!["-o"@, output, "-target"@, opts.target@] + (if opts.lto {
        seq!["-flto"@]
    } else {
        Seq::<Seq<char>>::empty()
    })
}

impl ClangCompilerBackend {
    /// Renders the compile command for one translation unit as data: the
    /// compiler path followed by its arguments, exactly as they would be
    /// executed. Nothing is touched on disk.
    pub fn compile_object_command(
        &self,
        source_path: &str,
        output_path: &str,
        include_directories: &Vec<String>,
        defines: &Vec<String>,
        extra_options: &ExtraCompileOptions,
    ) -> (r: Vec<String>)
        ensures
            views_of(r@) == spec_compile_command(
                self.compiler(),
                source_path@,
                output_path@,
                views_of(include_directories@),
                views_of(defines@),
                *extra_options,
            ),
    {
        let mut args: Vec<String> = Vec::new();
        push_owned(&mut args, self.compiler_path.clone());
        push_one(&mut args, "-c");
        push_one(&mut args, source_path);
        push_one(&mut args, "-o");
        push_one(&mut args, output_path);
        push_prefixed(&mut args, "-I", include_directories);
        push_prefixed(&mut args, "-D", defines);
        let mut opt_flag = String::from_str("-O");
        opt_flag.append(extra_options.opt_level.string());
        push_owned(&mut args, opt_flag);
        if extra_options.generate_debug {
            push_one(&mut args, "-ggdb3");
        }
        push_one(&mut args, "-MD");
        push_one(&mut args, "-target");
        push_owned(&mut args, extra_options.target.clone());
        if !target_is_msvc(extra_options.target.as_str()) {
            push_one(&mut args, "-fPIC");
        }
        proof {
            assert(views_of(args@) =~= spec_compile_command(
                self.compiler(),
                source_path@,
                output_path@,
                views_of(include_directories@),
                views_of(defines@),
                *extra_options,
            ));
        }
        args
    }

    /// Renders the command that archives the given objects into a static
    /// library at `output_path`, as the tool path followed by its
    /// arguments.
    pub fn archive_objects_command(
        &self,
        object_paths: &Vec<String>,
        output_path: &str,
        extra_options: &ExtraCompileOptions,
    ) -> (r: Vec<String>)
        ensures
            views_of(r@) == spec_archive_command(
                self.librarian(),
                self.archiver(),
                views_of(object_paths@),
                output_path@,
                *extra_options,
            ),
    {
        let mut args: Vec<String> = Vec::new();
        if target_is_msvc(extra_options.target.as_str()) {
            push_owned(&mut args, self.lib_path.clone());
            let mut out_flag = String::from_str("/OUT:");
            out_flag.append(output_path);
            push_owned(&mut args, out_flag);
        } else {
            push_owned(&mut args, self.ar_path.clone());
            push_one(&mut args, "rcs");
            push_one(&mut args, output_path);
        }
        push_all(&mut args, object_paths);
        proof {
            assert(views_of(args@) =~= spec_archive_command(
                self.librarian(),
                self.archiver(),
                views_of(object_paths@),
                output_path@,
                *extra_options,
            ));
        }
        args
    }

    /// Renders the command that links the given objects and libraries into
    /// an executable or dynamic library at `output_path`, as the compiler
    /// path followed by its arguments.
    pub fn link_objects_command(
        &self,
        object_paths: &Vec<String>,
        output_path: &str,
        lib_paths: &Vec<String>,
        dynamic_libs: &Vec<String>,
        static_libs: &Vec<String>,
        dynamic_library: bool,
        extra_options: &ExtraCompileOptions,
    ) -> (r: Vec<String>)
        ensures
            views_of(r@) == spec_link_command(
                self.compiler(),
                views_of(object_paths@),
                output_path@,
                views_of(lib_paths@),
                views_of(dynamic_libs@),
                views_of(static_libs@),
                dynamic_library,
                *extra_options,
            ),
    {
        let mut args: Vec<String> = Vec::new();
        push_owned(&mut args, self.compiler_path.clone());
        push_all(&mut args, object_paths);
        push_prefixed(&mut args, "-L", lib_paths);
        push_prefixed(&mut args, "-l", dynamic_libs);
        let msvc = target_is_msvc(extra_options.target.as_str());
        if !msvc {
            push_one(&mut args, "-Wl,--whole-archive");
        }
        push_prefixed(&mut args, "-l", static_libs);
        if !msvc {
            push_one(&mut args, "-Wl,--no-whole-archive");
        }
        if dynamic_library {
            push_one(&mut args, "-shared");
        }
        push_one(&mut args, "-o");
        push_one(&mut args, output_path);
        push_one(&mut args, "-target");
        push_owned(&mut args, extra_options.target.clone());
        if extra_options.lto {
            push_one(&mut args, "-flto");
        }
        proof {
            assert(views_of(args@) =~= spec_link_command(
                self.compiler(),
                views_of(object_paths@),
                output_path@,
                views_of(lib_paths@),
                views_of(dynamic_libs@),
                views_of(static_libs@),
                dynamic_library,
                *extra_options,
            ));
        }
        args
    }
}

} // verus!
