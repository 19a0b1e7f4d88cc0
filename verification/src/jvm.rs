//! The Java installation that keytool and cacerts come from, and how it is found.
use vstd::prelude::*;
use crate::cli::GlobalOpts;
use crate::error::JcmError;
use crate::logging::string_views;
use crate::text::{
    chars_of, eq_chars, lines, lines_chars, push_str, split_chars, split_on, string_of,
    strip_prefix_chars, starts_with, trim, trim_chars, views,
};

verus! {

/// Where the JDK, its tools and its trust store are.
#[derive(Debug)]
pub struct JvmInfo {
    pub java_home: String,
    pub cacerts: String,
    /// Use `keytool -cacerts` instead of `-keystore <path>` (required on newer JDKs).
    pub use_system_cacerts: bool,
    pub store_pass: String,
    pub java_bin: String,
    pub keytool_bin: String,
}

/// `c` separates path components: the platform's separator, or `/`, which
/// `Path` also accepts on Windows.
pub open spec fn is_separator(c: char, sep: char) -> bool {
    c == sep || c == '/'
}

/// `p` with every `/` written as the platform's separator.
pub open spec fn unify_separators(p: Seq<char>, sep: char) -> Seq<char> {
    p.map_values(|c: char| if c == '/' { sep } else { c })
}

fn unify_separators_exec(p: &[char], sep: char) -> (r: Vec<char>)
    ensures
        r@ == unify_separators(p@, sep),
{
    let mut r: Vec<char> = Vec::new();
    let mut i: usize = 0;
    while i < p.len()
        invariant
            i <= p.len(),
            r@ == unify_separators(p@.take(i as int), sep),
        decreases p.len() - i,
    {
        let c = p[i];
        r.push(if c == '/' { sep } else { c });
        i = i + 1;
        assert(r@ =~= unify_separators(p@.take(i as int), sep));
    }
    assert(p@.take(p.len() as int) =~= p@);
    r
}

/// `comp` appended to `base` with one separator between them (`Path::join`
/// for a relative component).
pub open spec fn join_path(base: Seq<char>, comp: Seq<char>, sep: char) -> Seq<char> {
    if base.len() == 0 || is_separator(base.last(), sep) {
        base + comp
    } else {
        base + seq![sep] + comp
    }
}

pub fn join_path_exec(base: &str, comp: &str, sep: char) -> (r: String)
    ensures
        r@ == join_path(base@, comp@, sep),
{
    let b = chars_of(base);
    let mut r = base.to_owned();
    if !(b.len() == 0 || b[b.len() - 1] == sep || b[b.len() - 1] == '/') {
        r.push(sep);
    }
    push_str(&mut r, comp);
    r
}

/// `<java_home>/lib/security/cacerts`.
pub open spec fn default_cacerts(java_home: Seq<char>, sep: char) -> Seq<char> {
    join_path(join_path(join_path(java_home, "lib"@, sep), "security"@, sep), "cacerts"@, sep)
}

pub fn default_cacerts_path(java_home: &str, sep: char) -> (r: String)
    ensures
        r@ == default_cacerts(java_home@, sep),
{
    let lib = join_path_exec(java_home, "lib", sep);
    let sec = join_path_exec(lib.as_str(), "security", sep);
    join_path_exec(sec.as_str(), "cacerts", sep)
}

/// The non-empty parts of a path other than `.`.
pub open spec fn normal_parts(segs: Seq<Seq<char>>) -> Seq<Seq<char>>
    decreases segs.len(),
{
    if segs.len() == 0 {
        seq![]
    } else {
        let rest = normal_parts(segs.drop_last());
        if segs.last().len() > 0 && segs.last() != "."@ {
            rest.push(segs.last())
        } else {
            rest
        }
    }
}

/// What `Path` equality compares: whether the path is rooted, whether a
/// relative path starts at `.`, and its normal parts; `/` separates parts
/// as the platform's separator does.
pub open spec fn path_key(p: Seq<char>, sep: char) -> (bool, bool, Seq<Seq<char>>) {
    let u = unify_separators(p, sep);
    let rooted = u.len() > 0 && u[0] == sep;
    let segs = split_on(u, sep);
    (rooted, !rooted && segs[0] == "."@, normal_parts(segs))
}

fn path_key_exec(p: &str, sep: char) -> (r: (bool, bool, Vec<Vec<char>>))
    ensures
        (r.0, r.1, views(r.2@)) == path_key(p@, sep),
{
    let cs = unify_separators_exec(&chars_of(p), sep);
    let rooted = cs.len() > 0 && cs[0] == sep;
    let segs = split_chars(&cs, sep);
    proof {
        crate::text::lemma_split_nonempty(cs@, sep);
    }
    let ghost sv = views(segs@);
    assert(sv[0] == segs@[0]@);
    let dot = chars_of(".");
    let lead = !rooted && eq_chars(&segs[0], &dot);
    let mut parts: Vec<Vec<char>> = Vec::new();
    let mut i: usize = 0;
    while i < segs.len()
        invariant
            i <= segs.len(),
            sv == views(segs@),
            dot@ == "."@,
            views(parts@) == normal_parts(sv.take(i as int)),
        decreases segs.len() - i,
    {
        assert(sv.take(i + 1).drop_last() =~= sv.take(i as int));
        assert(sv.take(i + 1).last() == segs@[i as int]@);
        if segs[i].len() > 0 && !eq_chars(&segs[i], &dot) {
            let ghost before = views(parts@);
            let mut seg: Vec<char> = Vec::new();
            crate::text::push_chars(&mut seg, &segs[i]);
            parts.push(seg);
            assert(views(parts@) =~= before.push(segs@[i as int]@));
        }
        i = i + 1;
    }
    assert(sv.take(segs.len() as int) =~= sv);
    (rooted, lead, parts)
}

fn parts_eq(a: &Vec<Vec<char>>, b: &Vec<Vec<char>>) -> (r: bool)
    ensures
        r == (views(a@) == views(b@)),
{
    if a.len() != b.len() {
        assert(views(a@).len() != views(b@).len());
        return false;
    }
    let mut i: usize = 0;
    while i < a.len()
        invariant
            a.len() == b.len(),
            i <= a.len(),
            forall|k: int| 0 <= k < i ==> views(a@)[k] == views(b@)[k],
        decreases a.len() - i,
    {
        if !eq_chars(&a[i], &b[i]) {
            assert(views(a@)[i as int] != views(b@)[i as int]);
            return false;
        }
        i = i + 1;
    }
    assert(views(a@) =~= views(b@));
    true
}

/// Two paths are the same: equal as `Path`s, or both resolve to the same
/// canonical path (`canonical` holds the two canonical forms when both exist).
pub open spec fn same_path_spec(a: Seq<char>, b: Seq<char>, sep: char, canonical: Option<(Seq<char>, Seq<char>)>) -> bool {
    path_key(a, sep) == path_key(b, sep) || (canonical matches Some((x, y)) && x == y)
}

pub fn same_path(a: &str, b: &str, sep: char, canonical: Option<(&str, &str)>) -> (r: bool)
    ensures
        r == same_path_spec(a@, b@, sep, match canonical {
            Some((x, y)) => Some((x@, y@)),
            None => None,
        }),
{
    let ka = path_key_exec(a, sep);
    let kb = path_key_exec(b, sep);
    if ka.0 == kb.0 && ka.1 == kb.1 && parts_eq(&ka.2, &kb.2) {
        return true;
    }
    match canonical {
        Some((x, y)) => crate::text::str_eq(x, y),
        None => false,
    }
}

/// Whether `cacerts` is the JDK's own trust store (`<java_home>/lib/security/cacerts`);
/// `canonical` holds the canonical forms of `cacerts` and of that default path, when both exist.
pub fn is_system_cacerts(java_home: &str, cacerts: &str, sep: char, canonical: Option<(&str, &str)>) -> (r: bool)
    ensures
        r == same_path_spec(cacerts@, default_cacerts(java_home@, sep), sep, match canonical {
            Some((x, y)) => Some((x@, y@)),
            None => None,
        }),
{
    let default = default_cacerts_path(java_home, sep);
    same_path(cacerts, default.as_str(), sep, canonical)
}

/// The keystore password: the option, else `changeit`.
pub fn store_pass_for(opts: &GlobalOpts) -> (r: String)
    ensures
        r@ == (match opts.store_pass {
            Some(p) => p@,
            None => "changeit"@,
        }),
{
    match &opts.store_pass {
        Some(p) => p.clone(),
        None => crate::DEFAULT_STORE_PASS.to_owned(),
    }
}

/// What finding the JVM needs next.
#[derive(Debug)]
pub enum JvmStep {
    /// Detect JAVA_HOME (environment, `java -XshowSettings`, platform) and report it.
    DetectJavaHome,
    /// Report whether `cacerts` exists.
    CheckCacerts { java_home: String, cacerts: String },
    /// Locate `java` and `keytool` for `java_home`, and compare `cacerts` with the default path.
    LocateTools { java_home: String, cacerts: String },
}

/// The first step of finding the JVM: a given `--cacerts` is used as it is;
/// otherwise the default trust store under JAVA_HOME must exist.
pub fn resolve_jvm(opts: &GlobalOpts, sep: char) -> (r: JvmStep)
    ensures
        match (opts.java_home, opts.cacerts) {
            (Some(h), Some(c)) => r matches JvmStep::LocateTools { java_home, cacerts } && java_home@ == h@ && cacerts@ == c@,
            (Some(h), None) => r matches JvmStep::CheckCacerts { java_home, cacerts } && java_home@ == h@ && cacerts@ == default_cacerts(h@, sep),
            (None, _) => r matches JvmStep::DetectJavaHome,
        },
{
    match (&opts.java_home, &opts.cacerts) {
        (Some(h), Some(c)) => JvmStep::LocateTools { java_home: h.clone(), cacerts: c.clone() },
        (Some(h), None) => JvmStep::CheckCacerts { java_home: h.clone(), cacerts: default_cacerts_path(h.as_str(), sep) },
        (None, _) => JvmStep::DetectJavaHome,
    }
}

/// The step after detecting JAVA_HOME: with `--cacerts` an undetected home is
/// `.`; without it, an undetected home is an error.
pub fn jvm_after_detection(opts: &GlobalOpts, detected: Option<String>, sep: char) -> (r: Result<JvmStep, JcmError>)
    ensures
        match (opts.cacerts, detected) {
            (Some(c), Some(h)) => r matches Ok(JvmStep::LocateTools { java_home, cacerts }) && java_home@ == h@ && cacerts@ == c@,
            (Some(c), None) => r matches Ok(JvmStep::LocateTools { java_home, cacerts }) && java_home@ == "."@ && cacerts@ == c@,
            (None, Some(h)) => r matches Ok(JvmStep::CheckCacerts { java_home, cacerts }) && java_home@ == h@ && cacerts@ == default_cacerts(h@, sep),
            (None, None) => r matches Err(JcmError::JavaHomeNotDetected),
        },
{
    match &opts.cacerts {
        Some(c) => {
            let home = match detected {
                Some(h) => h,
                None => ".".to_owned(),
            };
            Ok(JvmStep::LocateTools { java_home: home, cacerts: c.clone() })
        },
        None => match detected {
            Some(h) => {
                let cacerts = default_cacerts_path(h.as_str(), sep);
                Ok(JvmStep::CheckCacerts { java_home: h, cacerts })
            },
            None => Err(JcmError::JavaHomeNotDetected),
        },
    }
}

/// The step after checking that the default trust store exists.
pub fn jvm_after_cacerts_check(java_home: String, cacerts: String, exists: bool) -> (r: Result<JvmStep, JcmError>)
    ensures
        exists ==> (r matches Ok(JvmStep::LocateTools { java_home: h, cacerts: c }) && h == java_home && c == cacerts),
        !exists ==> (r matches Err(e) && (e matches JcmError::CacertsNotFound { path } && path@ == cacerts@)),
{
    if exists {
        Ok(JvmStep::LocateTools { java_home, cacerts })
    } else {
        Err(JcmError::CacertsNotFound { path: cacerts })
    }
}

/// The file name of a tool: `<name>.exe` on Windows.
pub fn exe_name(name: &str, windows: bool) -> (r: String)
    ensures
        r@ == (if windows { name@ + ".exe"@ } else { name@ }),
{
    let mut r = name.to_owned();
    if windows {
        push_str(&mut r, ".exe");
    }
    r
}

/// Where a tool of the installation would be: `<java_home>/bin/<exe name>`.
pub fn tool_candidate(java_home: &str, name: &str, windows: bool, sep: char) -> (r: String)
    ensures
        r@ == join_path(join_path(java_home@, "bin"@, sep), (if windows { name@ + ".exe"@ } else { name@ }), sep),
{
    let bin = join_path_exec(java_home, "bin", sep);
    let exe = exe_name(name, windows);
    join_path_exec(bin.as_str(), exe.as_str(), sep)
}

/// A tool is taken from the installation when it is there, else from the PATH.
pub fn choose_tool(candidate: String, candidate_exists: bool, on_path: Option<String>) -> (r: Option<String>)
    ensures
        candidate_exists ==> r == Some(candidate),
        !candidate_exists ==> r == on_path,
{
    if candidate_exists {
        Some(candidate)
    } else {
        on_path
    }
}

/// The JVM description, once `java` and `keytool` have been looked for.
pub fn build_info(java_home: String, cacerts: String, store_pass: String, java_bin: Option<String>, keytool_bin: Option<String>, use_system_cacerts: bool) -> (r: Result<JvmInfo, JcmError>)
    ensures
        java_bin is None ==> r matches Err(JcmError::JavaNotFound),
        java_bin is Some && keytool_bin is None ==> r matches Err(JcmError::KeytoolNotFound),
        java_bin is Some && keytool_bin is Some ==> r == Ok::<JvmInfo, JcmError>(JvmInfo {
            java_home,
            cacerts,
            use_system_cacerts,
            store_pass,
            java_bin: java_bin.unwrap(),
            keytool_bin: keytool_bin.unwrap(),
        }),
{
    let java_bin = match java_bin {
        Some(j) => j,
        None => return Err(JcmError::JavaNotFound),
    };
    let keytool_bin = match keytool_bin {
        Some(k) => k,
        None => return Err(JcmError::KeytoolNotFound),
    };
    Ok(JvmInfo { java_home, cacerts, use_system_cacerts, store_pass, java_bin, keytool_bin })
}

/// The `java.home` that `java -XshowSettings:properties -version` reports, if any.
pub open spec fn settings_java_home(ls: Seq<Seq<char>>) -> Option<Seq<char>>
    decreases ls.len(),
{
    if ls.len() == 0 {
        None
    } else if starts_with(trim(ls[0]), "java.home = "@) {
        Some(trim(trim(ls[0]).skip("java.home = "@.len() as int)))
    } else {
        settings_java_home(ls.drop_first())
    }
}

pub fn java_home_from_settings(stderr: &str) -> (r: Option<String>)
    ensures
        match r {
            Some(h) => settings_java_home(lines(stderr@)) == Some(h@),
            None => settings_java_home(lines(stderr@)) is None,
        },
{
    let ls = lines_chars(&chars_of(stderr));
    let ghost lv = views(ls@);
    let key = chars_of("java.home = ");
    let mut i: usize = 0;
    assert(lv.skip(0) =~= lv);
    while i < ls.len()
        invariant
            i <= ls.len(),
            lv == views(ls@),
            lv == lines(stderr@),
            key@ == "java.home = "@,
            settings_java_home(lv) == settings_java_home(lv.skip(i as int)),
        decreases ls.len() - i,
    {
        assert(lv.skip(i as int)[0] == ls@[i as int]@);
        assert(lv.skip(i as int).drop_first() =~= lv.skip(i + 1));
        let line = trim_chars(&ls[i]);
        if let Some(rest) = strip_prefix_chars(&line, &key) {
            return Some(string_of(&trim_chars(&rest)));
        }
        i = i + 1;
    }
    None
}

/// The lines describing the JVM in use.
pub open spec fn jvm_report(info: JvmInfo) -> Seq<Seq<char>> {
    seq![
        "java.home: "@ + info.java_home@,
        "cacerts: "@ + info.cacerts@,
        "keytool target: "@ + (if info.use_system_cacerts { "-cacerts"@ } else { "-keystore"@ }),
        "java: "@ + info.java_bin@,
        "keytool: "@ + info.keytool_bin@,
    ]
}

fn labeled(label: &str, value: &str) -> (r: String)
    ensures
        r@ == label@ + value@,
{
    let mut r = label.to_owned();
    push_str(&mut r, value);
    r
}

pub fn doctor_jvm_report(info: &JvmInfo) -> (r: Vec<String>)
    ensures
        string_views(r@) == jvm_report(*info),
{
    let mut r: Vec<String> = Vec::new();
    r.push(labeled("java.home: ", info.java_home.as_str()));
    r.push(labeled("cacerts: ", info.cacerts.as_str()));
    r.push(labeled("keytool target: ", if info.use_system_cacerts { "-cacerts" } else { "-keystore" }));
    r.push(labeled("java: ", info.java_bin.as_str()));
    r.push(labeled("keytool: ", info.keytool_bin.as_str()));
    assert(string_views(r@) =~= jvm_report(*info));
    r
}

/// The default trust store of a home is recognized as the system trust store.
pub proof fn law_default_cacerts_is_system(java_home: Seq<char>, sep: char)
    ensures
        same_path_spec(default_cacerts(java_home, sep), default_cacerts(java_home, sep), sep, None),
{
}

} // verus!
