pub mod compiler_backend;
pub mod interner;
pub mod manifest;
pub mod project;
pub mod staleness;

use vstd::prelude::*;
use vstd::string::StrSliceExecFns;
use vstd::string::StringExecFns;

verus! {

/// The directory that holds every build product.
pub const BUILD_DIR: &'static str = ".doggo";

/// True when the target triple names the MSVC ABI: it ends in "msvc".
pub open spec fn spec_target_is_msvc(t: Seq<char>) -> bool {
    t.len() >= 4 && t.subrange(t.len() - 4, t.len() as int) == "msvc"@
}

/// A target triple selects MSVC object/library conventions when it ends in "msvc".
pub fn target_is_msvc(target: &str) -> (r: bool)
    ensures
        r == spec_target_is_msvc(target@),
{
    proof {
        reveal_strlit("msvc");
    }
    let n = target.unicode_len();
    if n < 4 {
        return false;
    }
    let r = target.get_char(n - 4) == 'm' && target.get_char(n - 3) == 's'
        && target.get_char(n - 2) == 'v' && target.get_char(n - 1) == 'c';
    proof {
        let t = target@;
        let m = "msvc"@;
        if r {
            assert(t.subrange(t.len() - 4, t.len() as int) =~= m);
        }
        if spec_target_is_msvc(t) {
            assert(t[t.len() - 4] == m[0]);
            assert(t[t.len() - 3] == m[1]);
            assert(t[t.len() - 2] == m[2]);
            assert(t[t.len() - 1] == m[3]);
        }
    }
    r
}

/// True when the target triple names a Windows system: "windows" occurs in it.
pub open spec fn spec_target_is_windows(t: Seq<char>) -> bool {
    exists|k: int| 0 <= k && k + 7 <= t.len() && #[trigger] t.subrange(k, k + 7) == "windows"@
}

/// A target triple selects Windows artifact suffixes when it contains "windows".
pub fn target_is_windows(target: &str) -> (r: bool)
    ensures
        r == spec_target_is_windows(target@),
{
    let n = target.unicode_len();
    if n < 7 {
        return false;
    }
    let mut k: usize = 0;
    while k <= n - 7
        invariant
            n == target@.len(),
            n >= 7,
            k <= n - 7 + 1,
            forall|j: int| 0 <= j < k ==> #[trigger] target@.subrange(j, j + 7) != "windows"@,
        decreases n - k,
    {
        proof {
            reveal_strlit("windows");
        }
        let hit = target.get_char(k) == 'w' && target.get_char(k + 1) == 'i' && target.get_char(
            k + 2,
        ) == 'n' && target.get_char(k + 3) == 'd' && target.get_char(k + 4) == 'o'
            && target.get_char(k + 5) == 'w' && target.get_char(k + 6) == 's';
        proof {
            let sub = target@.subrange(k as int, k as int + 7);
            let w = "windows"@;
            if hit {
                assert(sub =~= w);
            } else {
                assert(sub[0] == target@[k as int]);
                assert(sub[1] == target@[k as int + 1]);
                assert(sub[2] == target@[k as int + 2]);
                assert(sub[3] == target@[k as int + 3]);
                assert(sub[4] == target@[k as int + 4]);
                assert(sub[5] == target@[k as int + 5]);
                assert(sub[6] == target@[k as int + 6]);
                assert(sub != w);
            }
        }
        if hit {
            return true;
        }
        k += 1;
    }
    proof {
        assert(forall|j: int|
            0 <= j && j + 7 <= target@.len() ==> #[trigger] target@.subrange(j, j + 7)
                != "windows"@);
    }
    false
}

/// An ASCII capital letter folded to its small form; any other character
/// unchanged.
pub open spec fn spec_lower_char(c: char) -> char {
    if 'A' <= c && c <= 'Z' {
        ((c as u8) + 32) as char
    } else {
        c
    }
}

/// ASCII case folding, character by character.
pub open spec fn spec_lower(s: Seq<char>) -> Seq<char> {
    s.map_values(|c: char| spec_lower_char(c))
}

/// True when the two strings are equal up to ASCII case.
pub fn eq_ignore_case(a: &str, b: &str) -> (r: bool)
    ensures
        r == (spec_lower(a@) == spec_lower(b@)),
{
    let n = a.unicode_len();
    if n != b.unicode_len() {
        proof {
            assert(spec_lower(a@).len() == a@.len());
            assert(spec_lower(b@).len() == b@.len());
        }
        return false;
    }
    let mut i: usize = 0;
    while i < n
        invariant
            n == a@.len(),
            n == b@.len(),
            i <= n,
            forall|j: int| 0 <= j < i ==> spec_lower_char(a@[j]) == spec_lower_char(b@[j]),
        decreases n - i,
    {
        let ca = a.get_char(i);
        let cb = b.get_char(i);
        let la = if 'A' <= ca && ca <= 'Z' {
            ((ca as u8) + 32) as char
        } else {
            ca
        };
        let lb = if 'A' <= cb && cb <= 'Z' {
            ((cb as u8) + 32) as char
        } else {
            cb
        };
        if la != lb {
            proof {
                assert(spec_lower(a@)[i as int] != spec_lower(b@)[i as int]);
            }
            return false;
        }
        i += 1;
    }
    proof {
        assert(spec_lower(a@) =~= spec_lower(b@));
    }
    true
}

/// The file extensions that name a translation unit to compile.
pub open spec fn spec_is_source_extension(e: Seq<char>) -> bool {
    ||| spec_lower(e) == "c"@
    ||| spec_lower(e) == "cpp"@
    ||| spec_lower(e) == "cxx"@
    ||| spec_lower(e) == "c++"@
    ||| spec_lower(e) == "cc"@
    ||| spec_lower(e) == "s"@
    ||| spec_lower(e) == "asm"@
}

/// True when a file extension, compared without regard to ASCII case,
/// names a translation unit to compile.
pub fn is_source_extension(ext: &str) -> (r: bool)
    ensures
        r == spec_is_source_extension(ext@),
{
    proof {
        reveal_strlit("c");
        reveal_strlit("cpp");
        reveal_strlit("cxx");
        reveal_strlit("c++");
        reveal_strlit("cc");
        reveal_strlit("s");
        reveal_strlit("asm");
        assert(spec_lower("c"@) =~= "c"@);
        assert(spec_lower("cpp"@) =~= "cpp"@);
        assert(spec_lower("cxx"@) =~= "cxx"@);
        assert(spec_lower("c++"@) =~= "c++"@);
        assert(spec_lower("cc"@) =~= "cc"@);
        assert(spec_lower("s"@) =~= "s"@);
        assert(spec_lower("asm"@) =~= "asm"@);
    }
    eq_ignore_case(ext, "c") || eq_ignore_case(ext, "cpp") || eq_ignore_case(ext, "cxx")
        || eq_ignore_case(ext, "c++") || eq_ignore_case(ext, "cc") || eq_ignore_case(ext, "s")
        || eq_ignore_case(ext, "asm")
}

/// The directory under the build root where a package's objects are kept:
/// the build directory, a separator, and the package name.
pub fn compiled_path(package_name: &str) -> (r: String)
    ensures
        r@ == ".doggo/"@ + package_name@,
{
    let mut s = String::from_str(".doggo/");
    s.append(package_name);
    s
}

} // verus!
