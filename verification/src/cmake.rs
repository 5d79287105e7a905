//! The CMake files that qpm writes for a project: `qpm_defines.cmake` and `extern.cmake`.
use vstd::prelude::*;
use crate::text::{
    contains_text, has_infix, lemma_infix_between, lemma_infix_widen, remove_spaces, text_equals, texts, without_spaces,
};
use crate::version::{version_text, Version};

verus! {

/// The concatenation, for each item, of `pre`, the item and `post`.
pub open spec fn each_line(items: Seq<Seq<char>>, pre: Seq<char>, post: Seq<char>) -> Seq<char>
    decreases items.len(),
{
    if items.len() == 0 {
        Seq::empty()
    } else {
        each_line(items.drop_last(), pre, post) + pre + items.last() + post
    }
}


/// Appends, for each item, `pre`, the item and `post`.
fn append_each(out: &mut String, items: &Vec<String>, pre: &str, post: &str)
    ensures
        final(out)@ == old(out)@ + each_line(texts(items@), pre@, post@),
{
    let ghost start = out@;
    let mut i: usize = 0;
    while i < items.len()
        invariant
            i <= items.len(),
            out@ == start + each_line(texts(items@.subrange(0, i as int)), pre@, post@),
        decreases items.len() - i,
    {
        proof {
            assert(texts(items@.subrange(0, i + 1)).drop_last() =~= texts(items@.subrange(0, i as int)));
            assert(texts(items@.subrange(0, i + 1)).last() == items@[i as int]@);
        }
        out.append(pre);
        out.append(items[i].as_str());
        out.append(post);
        assert(out@ =~= start + each_line(texts(items@.subrange(0, i + 1)), pre@, post@));
        i += 1;
    }
    assert(items@.subrange(0, items.len() as int) =~= items@);
}

/// The first id that contains `codegen`, if any.
pub open spec fn first_codegen(ids: Seq<Seq<char>>) -> Option<Seq<char>>
    decreases ids.len(),
{
    if ids.len() == 0 {
        None
    } else if has_infix(ids[0], "codegen"@) {
        Some(ids[0])
    } else {
        first_codegen(ids.drop_first())
    }
}

/// The codegen id: the first restored dependency whose id contains `codegen`, else `codegen`.
pub open spec fn codegen_id(ids: Seq<Seq<char>>) -> Seq<char> {
    match first_codegen(ids) {
        Some(id) => id,
        None => "codegen"@,
    }
}

fn find_codegen(ids: &Vec<String>) -> (r: String)
    ensures
        r@ == codegen_id(texts(ids@)),
{
    let mut i: usize = 0;
    assert(texts(ids@).subrange(0, ids.len() as int) =~= texts(ids@));
    while i < ids.len()
        invariant
            i <= ids.len(),
            first_codegen(texts(ids@)) == first_codegen(texts(ids@).subrange(i as int, ids.len() as int)),
        decreases ids.len() - i,
    {
        let ghost rest = texts(ids@).subrange(i as int, ids.len() as int);
        assert(rest[0] == ids@[i as int]@);
        if contains_text(ids[i].as_str(), "codegen") {
            return ids[i].clone();
        }
        assert(rest.drop_first() =~= texts(ids@).subrange(i + 1, ids.len() as int));
        i += 1;
    }
    assert(texts(ids@).subrange(i as int, ids.len() as int).len() == 0);
    String::from_str("codegen")
}

/// The NDK, build-type, directory and macro definitions that end every `qpm_defines.cmake`.
pub open spec fn defines_footer() -> Seq<char> {
    "# if no target given, use Debug\nif (NOT DEFINED CMAKE_BUILD_TYPE)\n\tset(CMAKE_BUILD_TYPE \"Debug\")\nendif()\n"@
    + "\n# defines used in ninja / cmake ndk builds\nif (NOT DEFINED CMAKE_ANDROID_NDK)\n\tif (EXISTS \"${CMAKE_CURRENT_LIST_DIR}/ndkpath.txt\")\n\t\tfile (STRINGS \"ndkpath.txt\" CMAKE_ANDROID_NDK)\n\telse()\n\t\tif(EXISTS $ENV{ANDROID_NDK_HOME})\n\t\t\tset(CMAKE_ANDROID_NDK $ENV{ANDROID_NDK_HOME})\n\t\telseif(EXISTS $ENV{ANDROID_NDK_LATEST_HOME})\n\t\t\tset(CMAKE_ANDROID_NDK $ENV{ANDROID_NDK_LATEST_HOME})\n\t\tendif()\n\tendif()\nendif()\nif (NOT DEFINED CMAKE_ANDROID_NDK)\n\tmessage(Big time error buddy, no NDK)\nendif()\nmessage(Using NDK ${CMAKE_ANDROID_NDK})\nstring(REPLACE \"\\\\\" \"/\" CMAKE_ANDROID_NDK ${CMAKE_ANDROID_NDK})\n\nset(ANDROID_PLATFORM 24)\nset(ANDROID_ABI arm64-v8a)\nset(ANDROID_STL c++_static)\nset(ANDROID_USE_LEGACY_TOOLCHAIN_FILE OFF)\n\nset(CMAKE_TOOLCHAIN_FILE ${CMAKE_ANDROID_NDK}/build/cmake/android.toolchain.cmake)"@
    + "\n# define used for external data, mostly just the qpm dependencies\nset(EXTERN_DIR ${CMAKE_CURRENT_SOURCE_DIR}/${EXTERN_DIR_NAME})\nset(SHARED_DIR ${CMAKE_CURRENT_SOURCE_DIR}/${SHARED_DIR_NAME})"@
    + "\n# get files by filter recursively\nMACRO(RECURSE_FILES return_list filter)\n\tFILE(GLOB_RECURSE new_list ${filter})\n\tSET(file_list \"\")\n\tFOREACH(file_path ${new_list})\n\t\tSET(file_list ${file_list} ${file_path})\n\tENDFOREACH()\n\tLIST(REMOVE_DUPLICATES file_list)\n\tSET(${return_list} ${file_list})\nENDMACRO()"@
}

/// The text of `qpm_defines.cmake` for a package.
pub open spec fn defines_text(
    version: Seq<char>,
    name: Seq<char>,
    module_id: Seq<char>,
    restored_ids: Seq<Seq<char>>,
    dependencies_dir: Seq<char>,
    shared_dir: Seq<char>,
) -> Seq<char> {
    "# YOU SHOULD NOT MANUALLY EDIT THIS FILE, QPM WILL VOID ALL CHANGES\n# Version defines, pretty useful"@
    + "\nset(MOD_VERSION \""@ + version + "\")\n"@
    + "# take the mod name and just remove spaces, that will be MOD_ID, if you don't like it change it after the include of this file\n"@
    + "set(MOD_ID \""@ + without_spaces(name) + "\")\n\n"@
    + "# derived from override .so name or just id_version\n"@
    + "set(COMPILE_ID \""@ + module_id + "\")\n"@
    + "# derived from whichever codegen package is installed, will default to just codegen\n"@
    + "set(CODEGEN_ID \""@ + codegen_id(restored_ids) + "\")\n\n"@
    + "# given from qpm, automatically updated from qpm.json\n"@
    + "set(EXTERN_DIR_NAME \""@ + dependencies_dir + "\")\n"@
    + "set(SHARED_DIR_NAME \""@ + shared_dir + "\")\n\n"@
    + defines_footer()
}

/// The text of `qpm_defines.cmake`: the package's version, its name without spaces as
/// `MOD_ID`, its module id as `COMPILE_ID`, the codegen id, its dependency and shared
/// directories, then the fixed NDK, build-type and macro definitions.
pub fn make_defines_string(
    version: &Version,
    name: &str,
    module_id: &str,
    restored_dependency_ids: &Vec<String>,
    dependencies_dir: &str,
    shared_dir: &str,
) -> (r: String)
    ensures
        r@ == defines_text(version_text(version@), name@, module_id@, texts(restored_dependency_ids@), dependencies_dir@, shared_dir@),
{
    let mut result = String::from_str("# YOU SHOULD NOT MANUALLY EDIT THIS FILE, QPM WILL VOID ALL CHANGES\n# Version defines, pretty useful");
    result.append("\nset(MOD_VERSION \"");
    let v = version.to_text();
    result.append(v.as_str());
    result.append("\")\n");
    result.append("# take the mod name and just remove spaces, that will be MOD_ID, if you don't like it change it after the include of this file\n");
    result.append("set(MOD_ID \"");
    let id = remove_spaces(name);
    result.append(id.as_str());
    result.append("\")\n\n");
    result.append("# derived from override .so name or just id_version\n");
    result.append("set(COMPILE_ID \"");
    result.append(module_id);
    result.append("\")\n");
    result.append("# derived from whichever codegen package is installed, will default to just codegen\n");
    result.append("set(CODEGEN_ID \"");
    let codegen = find_codegen(restored_dependency_ids);
    result.append(codegen.as_str());
    result.append("\")\n\n");
    result.append("# given from qpm, automatically updated from qpm.json\n");
    result.append("set(EXTERN_DIR_NAME \"");
    result.append(dependencies_dir);
    result.append("\")\n");
    result.append("set(SHARED_DIR_NAME \"");
    result.append(shared_dir);
    result.append("\")\n\n");
    result.append("# if no target given, use Debug\nif (NOT DEFINED CMAKE_BUILD_TYPE)\n\tset(CMAKE_BUILD_TYPE \"Debug\")\nendif()\n");
    result.append("\n# defines used in ninja / cmake ndk builds\nif (NOT DEFINED CMAKE_ANDROID_NDK)\n\tif (EXISTS \"${CMAKE_CURRENT_LIST_DIR}/ndkpath.txt\")\n\t\tfile (STRINGS \"ndkpath.txt\" CMAKE_ANDROID_NDK)\n\telse()\n\t\tif(EXISTS $ENV{ANDROID_NDK_HOME})\n\t\t\tset(CMAKE_ANDROID_NDK $ENV{ANDROID_NDK_HOME})\n\t\telseif(EXISTS $ENV{ANDROID_NDK_LATEST_HOME})\n\t\t\tset(CMAKE_ANDROID_NDK $ENV{ANDROID_NDK_LATEST_HOME})\n\t\tendif()\n\tendif()\nendif()\nif (NOT DEFINED CMAKE_ANDROID_NDK)\n\tmessage(Big time error buddy, no NDK)\nendif()\nmessage(Using NDK ${CMAKE_ANDROID_NDK})\nstring(REPLACE \"\\\\\" \"/\" CMAKE_ANDROID_NDK ${CMAKE_ANDROID_NDK})\n\nset(ANDROID_PLATFORM 24)\nset(ANDROID_ABI arm64-v8a)\nset(ANDROID_STL c++_static)\nset(ANDROID_USE_LEGACY_TOOLCHAIN_FILE OFF)\n\nset(CMAKE_TOOLCHAIN_FILE ${CMAKE_ANDROID_NDK}/build/cmake/android.toolchain.cmake)");
    result.append("\n# define used for external data, mostly just the qpm dependencies\nset(EXTERN_DIR ${CMAKE_CURRENT_SOURCE_DIR}/${EXTERN_DIR_NAME})\nset(SHARED_DIR ${CMAKE_CURRENT_SOURCE_DIR}/${SHARED_DIR_NAME})");
    result.append("\n# get files by filter recursively\nMACRO(RECURSE_FILES return_list filter)\n\tFILE(GLOB_RECURSE new_list ${filter})\n\tSET(file_list \"\")\n\tFOREACH(file_path ${new_list})\n\t\tSET(file_list ${file_list} ${file_path})\n\tENDFOREACH()\n\tLIST(REMOVE_DUPLICATES file_list)\n\tSET(${return_list} ${file_list})\nENDMACRO()");
    result
}

} // verus!

verus! {

/// Compile options that a dependency asks of the projects that use it.
pub struct CompileOptions {
    pub include_paths: Option<Vec<String>>,
    pub system_includes: Option<Vec<String>>,
    pub cpp_features: Option<Vec<String>>,
    pub cpp_flags: Option<Vec<String>>,
    pub c_flags: Option<Vec<String>>,
}

/// An extra file or directory that the project takes from a dependency, and whether
/// `extern/includes/{id}/{path}` is a file.
pub struct ExtraFile {
    pub path: String,
    pub is_file: bool,
}

/// What `extern.cmake` needs of one restored dependency: its id, the id in its package
/// config, its compile options, and the extra files the project's own dependency entry lists.
pub struct ExternDependency {
    pub id: String,
    pub package_id: String,
    pub compile_options: Option<CompileOptions>,
    pub extra_files: Option<Vec<ExtraFile>>,
}

/// The lines of an optional list.
pub open spec fn opt_lines(o: Option<Vec<String>>, pre: Seq<char>, post: Seq<char>) -> Seq<char> {
    match o {
        Some(v) => each_line(texts(v@), pre, post),
        None => Seq::empty(),
    }
}

/// The lines for a dependency's compile options.
pub open spec fn compile_options_text(package_id: Seq<char>, co: CompileOptions) -> Seq<char> {
    opt_lines(co.include_paths, "target_include_directories(${COMPILE_ID} PRIVATE ${EXTERN_DIR}/includes/"@ + package_id + "/"@, ")\n"@)
    + opt_lines(co.system_includes, "target_include_directories(${COMPILE_ID} SYSTEM PRIVATE ${EXTERN_DIR}/includes/"@ + package_id + "/"@, ")\n"@)
    + opt_lines(co.cpp_features, "target_compile_features(${COMPILE_ID} PRIVATE "@, ")\n"@)
    + opt_lines(co.cpp_flags, "target_compile_options(${COMPILE_ID} PRIVATE "@, ")\n"@)
    + opt_lines(co.c_flags, "target_compile_options(${COMPILE_ID} PRIVATE "@, ")\n"@)
}

/// `c` with `/`, `\` and `-` made `_`.
pub open spec fn underscore_char(c: char) -> char {
    if c == '/' || c == '\\' || c == '-' { '_' } else { c }
}

/// `c` with `-` made `_`.
pub open spec fn dash_to_underscore(c: char) -> char {
    if c == '-' { '_' } else { c }
}

/// The CMake list name for an extra directory.
pub open spec fn extra_list_name(id: Seq<char>, path: Seq<char>) -> Seq<char> {
    path.map_values(|c: char| underscore_char(c)) + "_"@ + id.map_values(|c: char| dash_to_underscore(c)) + "_local_extra"@
}

/// The lines for one extra file or directory of dependency `id`.
pub open spec fn extra_file_text(id: Seq<char>, f: ExtraFile) -> Seq<char> {
    let extern_path = "includes/"@ + id + "/"@ + f.path@;
    if f.is_file {
        "add_library(${COMPILE_ID} SHARED ${EXTERN_DIR}/"@ + extern_path + ")"@
    } else {
        let list = extra_list_name(id, f.path@);
        "RECURSE_FILES("@ + list + "_c ${EXTERN_DIR}/"@ + extern_path + "/*.c)\n"@
        + "RECURSE_FILES("@ + list + "_cpp ${EXTERN_DIR}/"@ + extern_path + "/*.cpp)\n"@
        + "target_sources(${COMPILE_ID} PRIVATE ${"@ + list + "_c})\n"@
        + "target_sources(${COMPILE_ID} PRIVATE ${"@ + list + "_cpp})\n"@
    }
}

/// The lines for the extra files of dependency `id`.
pub open spec fn extra_files_text(id: Seq<char>, files: Seq<ExtraFile>) -> Seq<char>
    decreases files.len(),
{
    if files.len() == 0 {
        Seq::empty()
    } else {
        extra_files_text(id, files.drop_last()) + extra_file_text(id, files.last())
    }
}

/// The lines for one dependency.
pub open spec fn dependency_text(d: ExternDependency) -> Seq<char> {
    (match d.compile_options {
        Some(co) => compile_options_text(d.package_id@, co),
        None => Seq::empty(),
    }) + (match d.extra_files {
        Some(files) => extra_files_text(d.id@, files@),
        None => Seq::empty(),
    })
}

/// The lines for all dependencies.
pub open spec fn dependencies_text(deps: Seq<ExternDependency>) -> Seq<char>
    decreases deps.len(),
{
    if deps.len() == 0 {
        Seq::empty()
    } else {
        dependencies_text(deps.drop_last()) + dependency_text(deps.last())
    }
}

/// The text of `extern.cmake`.
pub open spec fn extern_text(deps: Seq<ExternDependency>) -> Seq<char> {
    "# YOU SHOULD NOT MANUALLY EDIT THIS FILE, QPM WILL VOID ALL CHANGES\n# always added\ntarget_include_directories(${COMPILE_ID} PRIVATE ${EXTERN_DIR}/includes)\ntarget_include_directories(${COMPILE_ID} SYSTEM PRIVATE ${EXTERN_DIR}/includes/libil2cpp/il2cpp/libil2cpp)\n\n# includes and compile options added by other libraries\n"@
    + dependencies_text(deps)
    + (if exists|i: int| 0 <= i < deps.len() && (#[trigger] deps[i]).compile_options is Some {
        Seq::empty()
    } else {
        "# Sadly, there were none with extra include dirs\n"@
    })
    + "\n# libs dir -> stores .so or .a files (or symlinked!)\ntarget_link_directories(${COMPILE_ID} PRIVATE ${EXTERN_DIR}/libs)\nRECURSE_FILES(so_list ${EXTERN_DIR}/libs/*.so)\nRECURSE_FILES(a_list ${EXTERN_DIR}/libs/*.a)\n\n# every .so or .a that needs to be linked, put here!\n# I don't believe you need to specify if a lib is static or not, poggers!\ntarget_link_libraries(${COMPILE_ID} PRIVATE\n\t${so_list}\n\t${a_list}\n)\n"@
}

fn append_opt_lines(out: &mut String, o: &Option<Vec<String>>, pre: &str, post: &str)
    ensures
        final(out)@ == old(out)@ + opt_lines(*o, pre@, post@),
{
    match o {
        Some(v) => append_each(out, v, pre, post),
        None => {
            assert(old(out)@ + Seq::<char>::empty() =~= old(out)@);
        },
    }
}

/// Appends `s` with each character mapped by `underscore_char` (`dash_only`: by
/// `dash_to_underscore`).
fn append_underscored(out: &mut String, s: &str, dash_only: bool)
    ensures
        dash_only ==> final(out)@ == old(out)@ + s@.map_values(|c: char| dash_to_underscore(c)),
        !dash_only ==> final(out)@ == old(out)@ + s@.map_values(|c: char| underscore_char(c)),
{
    let ghost start = out@;
    let n = s.unicode_len();
    let mut i: usize = 0;
    proof {
        reveal_strlit("_");
        assert("_"@ =~= seq!['_']);
    }
    while i < n
        invariant
            n == s@.len(),
            i <= n,
            dash_only ==> out@ == start + s@.subrange(0, i as int).map_values(|c: char| dash_to_underscore(c)),
            !dash_only ==> out@ == start + s@.subrange(0, i as int).map_values(|c: char| underscore_char(c)),
        decreases n - i,
    {
        let c = s.get_char(i);
        let replace = c == '-' || (!dash_only && (c == '/' || c == '\\'));
        let ghost before = out@;
        if replace {
            out.append("_");
            proof {
                reveal_strlit("_");
                assert("_"@ =~= seq!['_']);
            }
            assert(out@ =~= before + seq!['_']);
        } else {
            let piece = s.substring_char(i, i + 1);
            assert(piece@ =~= seq![c]);
            out.append(piece);
        }
        assert(s@.subrange(0, i + 1) =~= s@.subrange(0, i as int).push(c));
        assert(dash_only ==> out@ =~= start + s@.subrange(0, i + 1).map_values(|c: char| dash_to_underscore(c)));
        assert(!dash_only ==> out@ =~= start + s@.subrange(0, i + 1).map_values(|c: char| underscore_char(c)));
        i += 1;
    }
    assert(s@.subrange(0, n as int) =~= s@);
}

fn append_extra_file(out: &mut String, id: &str, f: &ExtraFile)
    ensures
        final(out)@ == old(out)@ + extra_file_text(id@, *f),
{
    let mut extern_path = String::from_str("includes/");
    extern_path.append(id);
    extern_path.append("/");
    extern_path.append(f.path.as_str());
    if f.is_file {
        out.append("add_library(${COMPILE_ID} SHARED ${EXTERN_DIR}/");
        out.append(extern_path.as_str());
        out.append(")");
    } else {
        let mut list = String::new();
        append_underscored(&mut list, f.path.as_str(), false);
        list.append("_");
        append_underscored(&mut list, id, true);
        list.append("_local_extra");
        out.append("RECURSE_FILES(");
        out.append(list.as_str());
        out.append("_c ${EXTERN_DIR}/");
        out.append(extern_path.as_str());
        out.append("/*.c)\n");
        out.append("RECURSE_FILES(");
        out.append(list.as_str());
        out.append("_cpp ${EXTERN_DIR}/");
        out.append(extern_path.as_str());
        out.append("/*.cpp)\n");
        out.append("target_sources(${COMPILE_ID} PRIVATE ${");
        out.append(list.as_str());
        out.append("_c})\n");
        out.append("target_sources(${COMPILE_ID} PRIVATE ${");
        out.append(list.as_str());
        out.append("_cpp})\n");
    }
}

fn append_compile_options(out: &mut String, package_id: &str, co: &CompileOptions)
    ensures
        final(out)@ == old(out)@ + compile_options_text(package_id@, *co),
{
    let ghost start = out@;
    let mut pre = String::from_str("target_include_directories(${COMPILE_ID} PRIVATE ${EXTERN_DIR}/includes/");
    pre.append(package_id);
    pre.append("/");
    append_opt_lines(out, &co.include_paths, pre.as_str(), ")\n");
    let mut sys = String::from_str("target_include_directories(${COMPILE_ID} SYSTEM PRIVATE ${EXTERN_DIR}/includes/");
    sys.append(package_id);
    sys.append("/");
    append_opt_lines(out, &co.system_includes, sys.as_str(), ")\n");
    append_opt_lines(out, &co.cpp_features, "target_compile_features(${COMPILE_ID} PRIVATE ", ")\n");
    append_opt_lines(out, &co.cpp_flags, "target_compile_options(${COMPILE_ID} PRIVATE ", ")\n");
    append_opt_lines(out, &co.c_flags, "target_compile_options(${COMPILE_ID} PRIVATE ", ")\n");
    assert(out@ =~= start + compile_options_text(package_id@, *co));
}

fn append_dependency(out: &mut String, d: &ExternDependency)
    ensures
        final(out)@ == old(out)@ + dependency_text(*d),
{
    let ghost start = out@;
    match &d.compile_options {
        Some(co) => append_compile_options(out, d.package_id.as_str(), co),
        None => {},
    }
    let ghost mid = out@;
    match &d.extra_files {
        Some(files) => {
            let mut i: usize = 0;
            while i < files.len()
                invariant
                    i <= files.len(),
                    out@ == mid + extra_files_text(d.id@, files@.subrange(0, i as int)),
                decreases files.len() - i,
            {
                proof {
                    assert(files@.subrange(0, i + 1).drop_last() =~= files@.subrange(0, i as int));
                }
                append_extra_file(out, d.id.as_str(), &files[i]);
                i += 1;
            }
            assert(files@.subrange(0, files.len() as int) =~= files@);
        },
        None => {},
    }
    assert(out@ =~= start + dependency_text(*d));
}

/// The text of `extern.cmake`: the fixed include directories, then for each restored
/// dependency its compile options and extra files, a note when no dependency has compile
/// options, then the fixed library linking.
pub fn extern_cmake_text(deps: &Vec<ExternDependency>) -> (r: String)
    ensures
        r@ == extern_text(deps@),
{
    let mut result = String::from_str("# YOU SHOULD NOT MANUALLY EDIT THIS FILE, QPM WILL VOID ALL CHANGES\n# always added\ntarget_include_directories(${COMPILE_ID} PRIVATE ${EXTERN_DIR}/includes)\ntarget_include_directories(${COMPILE_ID} SYSTEM PRIVATE ${EXTERN_DIR}/includes/libil2cpp/il2cpp/libil2cpp)\n\n# includes and compile options added by other libraries\n");
    let ghost head = result@;
    let mut any = false;
    let mut i: usize = 0;
    while i < deps.len()
        invariant
            i <= deps.len(),
            result@ == head + dependencies_text(deps@.subrange(0, i as int)),
            any == exists|j: int| 0 <= j < i && (#[trigger] deps@[j]).compile_options is Some,
        decreases deps.len() - i,
    {
        proof {
            assert(deps@.subrange(0, i + 1).drop_last() =~= deps@.subrange(0, i as int));
        }
        if deps[i].compile_options.is_some() {
            any = true;
        }
        append_dependency(&mut result, &deps[i]);
        i += 1;
    }
    assert(deps@.subrange(0, deps.len() as int) =~= deps@);
    if !any {
        result.append("# Sadly, there were none with extra include dirs\n");
    }
    result.append("\n# libs dir -> stores .so or .a files (or symlinked!)\ntarget_link_directories(${COMPILE_ID} PRIVATE ${EXTERN_DIR}/libs)\nRECURSE_FILES(so_list ${EXTERN_DIR}/libs/*.so)\nRECURSE_FILES(a_list ${EXTERN_DIR}/libs/*.a)\n\n# every .so or .a that needs to be linked, put here!\n# I don't believe you need to specify if a lib is static or not, poggers!\ntarget_link_libraries(${COMPILE_ID} PRIVATE\n\t${so_list}\n\t${a_list}\n)\n");
    result
}

/// An extra file as plain values: its path and whether it is a file.
pub open spec fn extra_model(f: ExtraFile) -> (Seq<char>, bool) {
    (f.path@, f.is_file)
}

/// Optional extra files as plain values.
pub open spec fn extras_view(o: Option<Vec<ExtraFile>>) -> Option<Seq<(Seq<char>, bool)>> {
    match o {
        Some(v) => Some(v@.map_values(|f: ExtraFile| extra_model(f))),
        None => None,
    }
}

/// The position of the first of the project's dependency entries that is for `id`.
pub open spec fn first_entry_for(entries: Seq<(String, Option<Vec<ExtraFile>>)>, id: Seq<char>, i: int) -> bool {
    &&& 0 <= i < entries.len()
    &&& entries[i].0@ == id
    &&& forall|j: int| 0 <= j < i ==> (#[trigger] entries[j]).0@ != id
}

/// The extra files that the project's first dependency entry for `id` lists; `None` when no
/// entry is for `id`.
pub open spec fn extra_files_for(entries: Seq<(String, Option<Vec<ExtraFile>>)>, id: Seq<char>) -> Option<Seq<(Seq<char>, bool)>> {
    if exists|i: int| first_entry_for(entries, id, i) {
        extras_view(entries[choose|i: int| first_entry_for(entries, id, i)].1)
    } else {
        None
    }
}

/// A copy of optional extra files.
fn clone_extra_files(o: &Option<Vec<ExtraFile>>) -> (r: Option<Vec<ExtraFile>>)
    ensures
        extras_view(r) == extras_view(*o),
{
    match o {
        Some(files) => {
            let mut out: Vec<ExtraFile> = Vec::new();
            let mut i: usize = 0;
            while i < files.len()
                invariant
                    i <= files.len(),
                    out@.len() == i,
                    forall|j: int| 0 <= j < i ==> extra_model(#[trigger] out@[j]) == extra_model(files@[j]),
                decreases files.len() - i,
            {
                out.push(ExtraFile { path: files[i].path.clone(), is_file: files[i].is_file });
                i += 1;
            }
            assert(out@.map_values(|f: ExtraFile| extra_model(f)) =~= files@.map_values(|f: ExtraFile| extra_model(f)));
            Some(out)
        },
        None => None,
    }
}

/// The extra files of the project's first dependency entry for `id`.
fn find_extra_files(entries: &Vec<(String, Option<Vec<ExtraFile>>)>, id: &str) -> (r: Option<Vec<ExtraFile>>)
    ensures
        extras_view(r) == extra_files_for(entries@, id@),
{
    let mut i: usize = 0;
    while i < entries.len()
        invariant
            i <= entries.len(),
            forall|j: int| 0 <= j < i ==> (#[trigger] entries@[j]).0@ != id@,
        decreases entries.len() - i,
    {
        if text_equals(entries[i].0.as_str(), id) {
            proof {
                assert(first_entry_for(entries@, id@, i as int));
                let k = choose|k: int| first_entry_for(entries@, id@, k);
                if k < i {
                    assert(entries@[k].0@ != id@);
                }
                if k > i {
                    assert(entries@[i as int].0@ != id@);
                }
            }
            return clone_extra_files(&entries[i].1);
        }
        i += 1;
    }
    None
}

/// The `extern.cmake` entries of the restored dependencies, in restore order. Each of
/// `packages` gives a restored dependency's id, the id in its package config and its compile
/// options; the extra files come from the project's first dependency entry (`project_entries`:
/// id and extra files) for the same id, none when the project has no entry for it.
pub fn extern_dependencies(
    packages: Vec<(String, String, Option<CompileOptions>)>,
    project_entries: &Vec<(String, Option<Vec<ExtraFile>>)>,
) -> (r: Vec<ExternDependency>)
    ensures
        r.len() == packages.len(),
        forall|i: int| 0 <= i < r.len() ==> {
            &&& (#[trigger] r@[i]).id == packages@[i].0
            &&& r@[i].package_id == packages@[i].1
            &&& r@[i].compile_options == packages@[i].2
            &&& extras_view(r@[i].extra_files) == extra_files_for(project_entries@, packages@[i].0@)
        },
{
    let ghost orig = packages@;
    let mut rest = packages;
    let mut out: Vec<ExternDependency> = Vec::new();
    while rest.len() > 0
        invariant
            out.len() + rest.len() == orig.len(),
            rest@ == orig.subrange(out.len() as int, orig.len() as int),
            forall|i: int| 0 <= i < out.len() ==> {
                &&& (#[trigger] out@[i]).id == orig[i].0
                &&& out@[i].package_id == orig[i].1
                &&& out@[i].compile_options == orig[i].2
                &&& extras_view(out@[i].extra_files) == extra_files_for(project_entries@, orig[i].0@)
            },
        decreases rest.len(),
    {
        let ghost k = out.len() as int;
        let (id, package_id, compile_options) = rest.remove(0);
        assert(orig[k] == (id, package_id, compile_options));
        let extra_files = find_extra_files(project_entries, id.as_str());
        out.push(ExternDependency { id, package_id, compile_options, extra_files });
        assert(rest@ =~= orig.subrange(out.len() as int, orig.len() as int));
    }
    out
}

/// Each item's line occurs in the lines of the items.
pub proof fn lemma_each_line_has(items: Seq<Seq<char>>, pre: Seq<char>, post: Seq<char>, k: int)
    requires
        0 <= k < items.len(),
    ensures
        has_infix(each_line(items, pre, post), pre + items[k] + post),
    decreases items.len(),
{
    let rest = each_line(items.drop_last(), pre, post);
    let line = pre + items.last() + post;
    assert(each_line(items, pre, post) =~= rest + line + Seq::<char>::empty());
    if k == items.len() - 1 {
        lemma_infix_between(rest, line, Seq::<char>::empty());
    } else {
        lemma_each_line_has(items.drop_last(), pre, post, k);
        assert(items.drop_last()[k] == items[k]);
        lemma_infix_widen(Seq::<char>::empty(), rest, line, pre + items[k] + post);
        assert(Seq::<char>::empty() + rest + line =~= rest + line + Seq::<char>::empty());
    }
}

/// Each item of a present list has its line in the list's lines.
pub proof fn lemma_opt_lines_has(o: Option<Vec<String>>, pre: Seq<char>, post: Seq<char>, k: int)
    requires
        o matches Some(v) && 0 <= k < v.len(),
    ensures
        has_infix(opt_lines(o, pre, post), pre + o->0@[k]@ + post),
{
    let v = o->0;
    assert(texts(v@)[k] == v@[k]@);
    lemma_each_line_has(texts(v@), pre, post, k);
}

/// What occurs in a dependency's lines occurs in the lines of all dependencies.
pub proof fn lemma_dependencies_text_has(deps: Seq<ExternDependency>, i: int, needle: Seq<char>)
    requires
        0 <= i < deps.len(),
        has_infix(dependency_text(deps[i]), needle),
    ensures
        has_infix(dependencies_text(deps), needle),
    decreases deps.len(),
{
    let rest = dependencies_text(deps.drop_last());
    let last = dependency_text(deps.last());
    if i == deps.len() - 1 {
        lemma_infix_widen(rest, last, Seq::<char>::empty(), needle);
        assert(rest + last + Seq::<char>::empty() =~= dependencies_text(deps));
    } else {
        assert(deps.drop_last()[i] == deps[i]);
        lemma_dependencies_text_has(deps.drop_last(), i, needle);
        lemma_infix_widen(Seq::<char>::empty(), rest, last, needle);
        assert(Seq::<char>::empty() + rest + last =~= dependencies_text(deps));
    }
}

/// What occurs in the lines of the dependencies occurs in `extern.cmake`.
pub proof fn lemma_extern_text_has(deps: Seq<ExternDependency>, needle: Seq<char>)
    requires
        has_infix(dependencies_text(deps), needle),
    ensures
        has_infix(extern_text(deps), needle),
{
    let t = extern_text(deps);
    let d = dependencies_text(deps);
    // extern_text is a fixed head, the dependencies' lines, then a fixed tail
    let h = "# YOU SHOULD NOT MANUALLY EDIT THIS FILE, QPM WILL VOID ALL CHANGES\n# always added\ntarget_include_directories(${COMPILE_ID} PRIVATE ${EXTERN_DIR}/includes)\ntarget_include_directories(${COMPILE_ID} SYSTEM PRIVATE ${EXTERN_DIR}/includes/libil2cpp/il2cpp/libil2cpp)\n\n# includes and compile options added by other libraries\n"@;
    let tail = t.subrange((h.len() + d.len()) as int, t.len() as int);
    assert(t =~= h + d + tail);
    lemma_infix_widen(h, d, tail, needle);
}

/// Each line of a dependency's compile options occurs in the dependency's lines.
pub proof fn lemma_compile_options_in_dependency(d: ExternDependency, needle: Seq<char>)
    requires
        d.compile_options is Some,
        has_infix(compile_options_text(d.package_id@, d.compile_options->0), needle),
    ensures
        has_infix(dependency_text(d), needle),
{
    let c = compile_options_text(d.package_id@, d.compile_options->0);
    let e = dependency_text(d).subrange(c.len() as int, dependency_text(d).len() as int);
    assert(dependency_text(d) =~= Seq::<char>::empty() + c + e);
    lemma_infix_widen(Seq::<char>::empty(), c, e, needle);
}

/// Each extra file's lines occur in the lines of the extra files.
pub proof fn lemma_extra_files_text_has(id: Seq<char>, files: Seq<ExtraFile>, k: int, needle: Seq<char>)
    requires
        0 <= k < files.len(),
        has_infix(extra_file_text(id, files[k]), needle),
    ensures
        has_infix(extra_files_text(id, files), needle),
    decreases files.len(),
{
    let rest = extra_files_text(id, files.drop_last());
    let last = extra_file_text(id, files.last());
    if k == files.len() - 1 {
        lemma_infix_widen(rest, last, Seq::<char>::empty(), needle);
        assert(rest + last + Seq::<char>::empty() =~= extra_files_text(id, files));
    } else {
        assert(files.drop_last()[k] == files[k]);
        lemma_extra_files_text_has(id, files.drop_last(), k, needle);
        lemma_infix_widen(Seq::<char>::empty(), rest, last, needle);
        assert(Seq::<char>::empty() + rest + last =~= extra_files_text(id, files));
    }
}

/// Each line of a dependency's extra files occurs in the dependency's lines.
pub proof fn lemma_extra_files_in_dependency(d: ExternDependency, needle: Seq<char>)
    requires
        d.extra_files is Some,
        has_infix(extra_files_text(d.id@, d.extra_files->0@), needle),
    ensures
        has_infix(dependency_text(d), needle),
{
    let x = extra_files_text(d.id@, d.extra_files->0@);
    let c = dependency_text(d).subrange(0, dependency_text(d).len() - x.len());
    assert(dependency_text(d) =~= c + x + Seq::<char>::empty());
    lemma_infix_widen(c, x, Seq::<char>::empty(), needle);
}

} // verus!
