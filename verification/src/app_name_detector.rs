//! Heuristics for a human-friendly application display name: window-title
//! filtering, process-tree fallbacks, binary-name cleanup.  The process
//! and window queries themselves are the caller's; every rule about their
//! results is here.
use vstd::prelude::*;
use vstd::string::StrSliceExecFns;
use vstd::string::StringSliceAdditionalSpecFns;
use vstd::utf8::encode_utf8;

use crate::bytescan::{contains_bytes, contains_seq, bytes_eq, dec_value, is_dec_u32, parse_u32_dec, trim_ascii, trim_spec};

verus! {

/// Configuration for display-name detection.
pub struct AppNameConfig {
    /// Window titles to ignore (system/generic windows).
    pub ignored_window_titles: Vec<String>,
    /// Maximum number of parent processes to check.
    pub max_parent_depth: usize,
    /// Window-title prefixes that mean the reported application name
    /// should be used instead.
    pub fallback_prefixes: Vec<String>,
}

impl Default for AppNameConfig {
    fn default() -> (r: Self)
        ensures
            r.ignored_window_titles@.len() == 3,
            r.ignored_window_titles@[0]@ == "XdndCollectionWindowImp"@,
            r.ignored_window_titles@[1]@ == "Wine System Tray"@,
            r.ignored_window_titles@[2]@ == "Default IME"@,
            r.max_parent_depth == 3,
            r.fallback_prefixes@.len() == 1,
            r.fallback_prefixes@[0]@ == "steam_app"@,
    {
        let mut ignored: Vec<String> = Vec::new();
        ignored.push(String::from_str("XdndCollectionWindowImp"));
        ignored.push(String::from_str("Wine System Tray"));
        ignored.push(String::from_str("Default IME"));
        let mut prefixes: Vec<String> = Vec::new();
        prefixes.push(String::from_str("steam_app"));
        AppNameConfig {
            ignored_window_titles: ignored,
            max_parent_depth: 3,
            fallback_prefixes: prefixes,
        }
    }
}

/// Whether a reported application name is too generic to display, per the
/// byte content of its UTF-8 form (exactly the standard substring test).
pub open spec fn generic_name(s: Seq<char>) -> bool {
    let b = encode_utf8(s);
    ||| contains_seq(b, "WEBRTC".spec_bytes())
    ||| contains_seq(b, "WebRTC".spec_bytes())
    ||| contains_seq(b, "wine".spec_bytes())
    ||| contains_seq(b, "preloader".spec_bytes())
    ||| b == "wine64-preloader".spec_bytes()
    ||| b == "wine-preloader".spec_bytes()
}

/// Whether an application name is generic/unhelpful (engine or loader
/// names rather than the application's own).
pub fn is_generic_app_name(name: &str) -> (r: bool)
    ensures
        r == generic_name(name@),
{
    let b = name.as_bytes();
    contains_bytes(b, "WEBRTC".as_bytes()) || contains_bytes(b, "WebRTC".as_bytes())
        || contains_bytes(b, "wine".as_bytes()) || contains_bytes(b, "preloader".as_bytes())
        || bytes_eq(b, "wine64-preloader".as_bytes()) || bytes_eq(b, "wine-preloader".as_bytes())
}

/// A string with the first letter capitalized: the uppercase form of its
/// first character, then the rest unchanged.
pub open spec fn capitalized(s: Seq<char>) -> Seq<char> {
    if s.len() == 0 {
        Seq::empty()
    } else {
        upper_of(s[0]) + s.skip(1)
    }
}

/// Relies on char::to_uppercase: the result depends on the character
/// alone.
pub uninterp spec fn upper_of(c: char) -> Seq<char>;

/// Relies on char::to_uppercase: the result depends on the character
/// alone.
#[verifier::external_body]
fn char_upper(c: char) -> (r: String)
    ensures
        r@ == upper_of(c),
{
    c.to_uppercase().collect()
}

/// Capitalizes the first letter of a string.
pub fn capitalize_first_letter(s: &str) -> (r: String)
    ensures
        r@ == capitalized(s@),
{
    let n = s.unicode_len();
    if n == 0 {
        String::new()
    } else {
        let c = s.get_char(0);
        let rest = s.substring_char(1, n);
        proof {
            assert(s@.subrange(1, n as int) =~= s@.skip(1));
        }
        char_upper(c).concat(rest)
    }
}

/// Whether one character sequence equals another.
fn str_eq_chars(a: &str, b: &str) -> (r: bool)
    ensures
        r == (a@ == b@),
{
    let an = a.unicode_len();
    let bn = b.unicode_len();
    if an != bn {
        return false;
    }
    let mut i: usize = 0;
    while i < an
        invariant
            a@.len() == an && b@.len() == bn && an == bn,
            i <= an,
            forall|j: int| 0 <= j < i ==> a@[j] == b@[j],
        decreases an - i,
    {
        if a.get_char(i) != b.get_char(i) {
            return false;
        }
        i = i + 1;
    }
    proof {
        assert(a@ =~= b@);
    }
    true
}

/// The characters after the last occurrence of `c`, or all of them when
/// `c` does not occur.
pub open spec fn after_last_char(s: Seq<char>, c: char) -> Seq<char> {
    match s.index_of_last(c) {
        Some(i) => s.skip(i + 1),
        None => s,
    }
}

/// The tail of `s` after its last occurrence of `c`.
fn after_last_str<'a>(s: &'a str, c: char) -> (r: &'a str)
    ensures
        r@ == after_last_char(s@, c),
{
    let n = s.unicode_len();
    let mut i: usize = n;
    while i > 0
        invariant
            i <= s@.len() && n == s@.len(),
            forall|j: int| i <= j < s@.len() ==> s@[j] != c,
        decreases i,
    {
        if s.get_char(i - 1) == c {
            proof {
                s@.index_of_last_ensures(c);
                match s@.index_of_last(c) {
                    Some(k) => {
                        assert(k == i - 1);
                    },
                    None => {
                        assert(false);
                    },
                }
            }
            let r = s.substring_char(i, n);
            proof {
                assert(r@ =~= s@.skip(i as int));
            }
            return r;
        }
        i = i - 1;
    }
    proof {
        s@.index_of_last_ensures(c);
        match s@.index_of_last(c) {
            Some(k) => {
                assert(false);
            },
            None => {},
        }
        assert(s@.subrange(0, s@.len() as int) =~= s@);
    }
    s.substring_char(0, n)
}

/// The character sequence with every trailing repetition of `suffix`
/// removed.
pub open spec fn strip_suffix_all_chars(s: Seq<char>, suffix: Seq<char>) -> Seq<char>
    decreases s.len(),
{
    if suffix.len() > 0 && s.len() >= suffix.len() && s.subrange(
        s.len() - suffix.len(),
        s.len() as int,
    ) == suffix {
        strip_suffix_all_chars(s.take(s.len() - suffix.len()), suffix)
    } else {
        s
    }
}

/// Removes every trailing repetition of `suffix`.
fn strip_suffix_all_str<'a>(s: &'a str, suffix: &str) -> (r: &'a str)
    ensures
        r@ == strip_suffix_all_chars(s@, suffix@),
    decreases s@.len(),
{
    let n = s.unicode_len();
    let m = suffix.unicode_len();
    if m > 0 && n >= m {
        let tail = s.substring_char(n - m, n);
        if str_eq_chars(tail, suffix) {
            let head = s.substring_char(0, n - m);
            proof {
                assert(head@ =~= s@.take(s@.len() - suffix@.len()));
            }
            return strip_suffix_all_str(head, suffix);
        }
    }
    s
}

/// The display form of a binary path: the last path component (after `/`
/// and `\`), without trailing `-bin` or `.exe`.
pub open spec fn binary_display_name(path: Seq<char>) -> Seq<char> {
    strip_suffix_all_chars(
        strip_suffix_all_chars(
            after_last_char(after_last_char(path, '/'), '\\'),
            "-bin"@,
        ),
        ".exe"@,
    )
}

/// Extracts the binary name from a full path, Unix or Windows style.
pub fn extract_binary_name(path: &str) -> (r: String)
    ensures
        r@ == binary_display_name(path@),
{
    let base = after_last_str(after_last_str(path, '/'), '\\');
    let stripped = strip_suffix_all_str(base, "-bin");
    let stripped = strip_suffix_all_str(stripped, ".exe");
    stripped.to_owned()
}

/// Whether `p` begins `s`.
pub open spec fn char_prefix(p: Seq<char>, s: Seq<char>) -> bool {
    p.len() <= s.len() && s.subrange(0, p.len() as int) == p
}

impl AppNameConfig {
    /// Whether a window title calls for falling back to the reported
    /// application name (a launcher-generated title, not the game's own).
    pub fn should_use_fallback(&self, title: &str) -> (r: bool)
        ensures
            r == exists|i: int|
                0 <= i < self.fallback_prefixes@.len() && char_prefix(
                    #[trigger] self.fallback_prefixes@[i]@,
                    title@,
                ),
    {
        let n = title.unicode_len();
        let mut i: usize = 0;
        while i < self.fallback_prefixes.len()
            invariant
                n == title@.len(),
                i <= self.fallback_prefixes@.len(),
                forall|j: int|
                    0 <= j < i ==> !char_prefix(
                        #[trigger] self.fallback_prefixes@[j]@,
                        title@,
                    ),
            decreases self.fallback_prefixes@.len() - i,
        {
            let p = &self.fallback_prefixes[i];
            let m = p.as_str().unicode_len();
            if m <= n {
                let head = title.substring_char(0, m);
                if str_eq_chars(head, p.as_str()) {
                    return true;
                }
            }
            i = i + 1;
        }
        false
    }

    /// Whether a window title is usable: non-empty and not one of the
    /// ignored system titles.
    pub fn accept_window_title(&self, title: &str) -> (r: bool)
        ensures
            r == (title@.len() > 0 && !exists|i: int|
                0 <= i < self.ignored_window_titles@.len() && (
                #[trigger] self.ignored_window_titles@[i])@ == title@),
    {
        let n = title.unicode_len();
        if n == 0 {
            return false;
        }
        let mut i: usize = 0;
        while i < self.ignored_window_titles.len()
            invariant
                i <= self.ignored_window_titles@.len(),
                forall|j: int|
                    0 <= j < i ==> (#[trigger] self.ignored_window_titles@[j])@ != title@,
            decreases self.ignored_window_titles@.len() - i,
        {
            if str_eq_chars(self.ignored_window_titles[i].as_str(), title) {
                return false;
            }
            i = i + 1;
        }
        true
    }

    /// The best display name for an application: a usable window title
    /// first; the reported application name when it is not generic; the
    /// capitalized binary name as a fallback; the reported name as a last
    /// resort.  The caller resolves the window title (walking the process
    /// tree, filtering through `accept_window_title` and
    /// `should_use_fallback`) and hands in what it found.
    pub fn determine_display_name(
        &self,
        application_name: &str,
        binary_path: Option<&str>,
        window_title: Option<String>,
    ) -> (r: String)
        ensures
            r@ == match window_title {
                Some(t) => t@,
                None => {
                    if application_name@.len() > 0 && !generic_name(application_name@) {
                        application_name@
                    } else {
                        match binary_path {
                            Some(p) => if binary_display_name(p@).len() > 0 {
                                capitalized(binary_display_name(p@))
                            } else {
                                application_name@
                            },
                            None => application_name@,
                        }
                    }
                },
            },
    {
        match window_title {
            Some(t) => t,
            None => {
                if application_name.unicode_len() > 0 && !is_generic_app_name(application_name) {
                    return application_name.to_owned();
                }
                match binary_path {
                    Some(p) => {
                        let binary_name = extract_binary_name(p);
                        if binary_name.as_str().unicode_len() > 0 {
                            capitalize_first_letter(binary_name.as_str())
                        } else {
                            application_name.to_owned()
                        }
                    },
                    None => application_name.to_owned(),
                }
            },
        }
    }
}

/// The parent process identifier printed by a process query: the trimmed
/// output as a number, kept only past the init process.
pub open spec fn parent_pid_of(out: Seq<u8>) -> Option<u32> {
    let t = trim_spec(out);
    if is_dec_u32(t) && dec_value(t) > 1 {
        Some(dec_value(t) as u32)
    } else {
        None
    }
}

/// Parses the output of a parent-pid query (`ps -o ppid= -p <pid>`),
/// filtering out the init process.
pub fn parse_parent_pid(output: &[u8]) -> (r: Option<u32>)
    ensures
        r == parent_pid_of(output@),
{
    let t = trim_ascii(output);
    match parse_u32_dec(t) {
        Some(p) => if p > 1 {
            Some(p)
        } else {
            None
        },
        None => None,
    }
}

} // verus!
