//! Font directories of the operating system, and the `fonts` listing.
//!
//! The listing shows bundled families (portable) and local families (this
//! machine only); families are deduplicated case-insensitively, a local
//! family that is also bundled is left out, and each section is sorted by
//! the lowercase name.

use vstd::prelude::*;
use vstd::string::StringExecFns;
use crate::listing::{json_quote, json_quoted};
use crate::paths::{is_verbatim, joined, path_join, unix_join, unix_joined};
use crate::table::{StrMap, listed_by_key};
use crate::text::{join, strings_view, to_lowercase, unicode_lowercase};

verus! {

// ── OS font directories ─────────────────────────────────────────────────────

/// The operating systems with known font directories.
#[derive(Debug, Clone, Copy, PartialEq, Eq)]
pub enum FontPlatform {
    Linux,
    MacOs,
    Windows,
    /// Any other target: no known font directory.
    Other,
}

/// The environment values the font directories depend on.
#[derive(Debug, Clone)]
pub struct FontEnv {
    /// `$HOME`.
    pub home: Option<String>,
    /// `%WINDIR%`.
    pub windir: Option<String>,
    /// `%LOCALAPPDATA%`.
    pub local_app_data: Option<String>,
}

/// The font directories of `platform`, most canonical first; those that
/// depend on an unset variable of `env` are left out.
pub open spec fn font_dirs_ok(platform: FontPlatform, env: FontEnv, r: Seq<Seq<char>>) -> bool {
    match platform {
        FontPlatform::Linux => match env.home {
            Some(h) => r.len() == 4 && r[0] == "/usr/share/fonts"@ && r[1] == "/usr/local/share/fonts"@
                && r[2] == unix_joined(h@, ".fonts"@) && r[3] == unix_joined(h@, ".local/share/fonts"@),
            None => r.len() == 2 && r[0] == "/usr/share/fonts"@ && r[1] == "/usr/local/share/fonts"@,
        },
        FontPlatform::MacOs => match env.home {
            Some(h) => r.len() == 3 && r[0] == "/System/Library/Fonts"@ && r[1] == "/Library/Fonts"@
                && r[2] == unix_joined(h@, "Library/Fonts"@),
            None => r.len() == 2 && r[0] == "/System/Library/Fonts"@ && r[1] == "/Library/Fonts"@,
        },
        FontPlatform::Windows => match (env.windir, env.local_app_data) {
            (Some(w), Some(l)) => r.len() == 2 && (!is_verbatim(w@) ==> joined(r[0], w@, "Fonts"@))
                && (!is_verbatim(l@) ==> joined(r[1], l@, "Microsoft/Windows/Fonts"@)),
            (Some(w), None) => r.len() == 1 && (!is_verbatim(w@) ==> joined(r[0], w@, "Fonts"@)),
            (None, Some(l)) => r.len() == 1 && (!is_verbatim(l@) ==> joined(
                r[0],
                l@,
                "Microsoft/Windows/Fonts"@,
            )),
            (None, None) => r.len() == 0,
        },
        FontPlatform::Other => r.len() == 0,
    }
}

/// The OS font directories to scan for local fonts on `platform`, most
/// canonical first. Directories that depend on an unset variable of `env`
/// are left out; the list may name directories that do not exist.
pub fn os_font_dirs(platform: FontPlatform, env: &FontEnv) -> (r: Vec<String>)
    ensures
        font_dirs_ok(platform, *env, strings_view(r@)),
        forall|i: int| 0 <= i < r@.len() ==> #[trigger] r@[i]@.len() > 0,
{
    let mut dirs: Vec<String> = Vec::new();
    match platform {
        FontPlatform::Linux => {
            dirs.push("/usr/share/fonts".to_owned());
            dirs.push("/usr/local/share/fonts".to_owned());
            if let Some(home) = &env.home {
                proof {
                    reveal_strlit(".fonts");
                    reveal_strlit(".local/share/fonts");
                }
                dirs.push(unix_join(home.as_str(), ".fonts"));
                dirs.push(unix_join(home.as_str(), ".local/share/fonts"));
            }
            proof {
                reveal_strlit("/usr/share/fonts");
                reveal_strlit("/usr/local/share/fonts");
            }
        },
        FontPlatform::MacOs => {
            dirs.push("/System/Library/Fonts".to_owned());
            dirs.push("/Library/Fonts".to_owned());
            if let Some(home) = &env.home {
                proof {
                    reveal_strlit("Library/Fonts");
                }
                dirs.push(unix_join(home.as_str(), "Library/Fonts"));
            }
            proof {
                reveal_strlit("/System/Library/Fonts");
                reveal_strlit("/Library/Fonts");
            }
        },
        FontPlatform::Windows => {
            if let Some(w) = &env.windir {
                proof {
                    reveal_strlit("Fonts");
                }
                dirs.push(path_join(w.as_str(), "Fonts"));
            }
            if let Some(l) = &env.local_app_data {
                proof {
                    reveal_strlit("Microsoft/Windows/Fonts");
                }
                dirs.push(path_join(l.as_str(), "Microsoft/Windows/Fonts"));
            }
        },
        FontPlatform::Other => {},
    }
    proof {
        let v = strings_view(dirs@);
        assert(v.len() == dirs@.len());
        assert(forall|i: int| 0 <= i < dirs@.len() ==> #[trigger] dirs@[i]@ == v[i]);
    }
    dirs
}

// ── The listing ─────────────────────────────────────────────────────────────

/// The first of `families[..n]` for each lowercase name, by lowercase name,
/// leaving out names in `exclude`.
pub open spec fn first_by_key(
    families: Seq<Seq<char>>,
    exclude: Map<Seq<char>, Seq<char>>,
    n: int,
) -> Map<Seq<char>, Seq<char>>
    decreases n,
{
    if n <= 0 {
        Map::empty()
    } else {
        let m = first_by_key(families, exclude, n - 1);
        let k = unicode_lowercase(families[n - 1]);
        if exclude.contains_key(k) || m.contains_key(k) {
            m
        } else {
            m.insert(k, families[n - 1])
        }
    }
}

fn index_families(families: &Vec<String>, exclude: &StrMap<String>) -> (r: StrMap<String>)
    ensures
        r@ == first_by_key(strings_view(families@), exclude@, families@.len() as int),
{
    let ghost fv = strings_view(families@);
    let mut m: StrMap<String> = StrMap::new();
    let mut i: usize = 0;
    while i < families.len()
        invariant
            i <= families@.len(),
            fv == strings_view(families@),
            m@ == first_by_key(fv, exclude@, i as int),
        decreases families@.len() - i,
    {
        let key = to_lowercase(families[i].as_str());
        let excluded = match exclude.get(key.as_str()) {
            Some(_) => true,
            None => false,
        };
        let present = match m.get(key.as_str()) {
            Some(_) => true,
            None => false,
        };
        if !excluded && !present {
            m.insert(key, families[i].clone());
        }
        i = i + 1;
    }
    m
}

/// The bundled families (first spelling of each lowercase name) and the
/// local families that are not bundled, each in lowercase-name order.
pub fn sort_families(bundled: &Vec<String>, local: &Vec<String>) -> (r: (Vec<String>, Vec<String>))
    ensures
        listed_by_key(
            strings_view(r.0@),
            first_by_key(strings_view(bundled@), Map::empty(), bundled@.len() as int),
        ),
        listed_by_key(
            strings_view(r.1@),
            first_by_key(
                strings_view(local@),
                first_by_key(strings_view(bundled@), Map::empty(), bundled@.len() as int),
                local@.len() as int,
            ),
        ),
{
    let none: StrMap<String> = StrMap::new();
    let b = index_families(bundled, &none);
    let l = index_families(local, &b);
    (b.string_values(), l.string_values())
}

pub open spec fn bundled_rule() -> Seq<char> {
    "──────────────────"@
}

pub open spec fn local_rule() -> Seq<char> {
    "──────────────────────────────────"@
}

pub open spec fn local_note() -> Seq<char> {
    "Note: local fonts are not portable — renders that use them may differ on another machine and trip a `font.local` advisory."@
}

pub open spec fn indented(fs: Seq<Seq<char>>) -> Seq<Seq<char>> {
    fs.map_values(|f: Seq<char>| "  "@ + f)
}

/// The lines of the human listing of `bundled` and `local` families.
pub open spec fn fonts_human_lines(bundled: Seq<Seq<char>>, local: Seq<Seq<char>>) -> Seq<Seq<char>> {
    seq!["Bundled (portable)"@, bundled_rule()] + (if bundled.len() == 0 {
        seq!["  (none)"@]
    } else {
        indented(bundled)
    }) + seq![Seq::empty(), "Local / system (this machine only)"@, local_rule()] + (if local.len()
        == 0 {
        seq!["  (none found)"@]
    } else {
        indented(local) + seq![Seq::empty(), local_note()]
    })
}

/// The human listing: the lines joined with newlines.
pub open spec fn fonts_human(bundled: Seq<Seq<char>>, local: Seq<Seq<char>>) -> Seq<char> {
    join(fonts_human_lines(bundled, local), "\n"@)
}

/// The items of a pretty-printed JSON string array, one per line.
pub open spec fn json_items(fs: Seq<Seq<char>>, n: int) -> Seq<char>
    decreases n,
{
    if n <= 0 {
        Seq::empty()
    } else {
        json_items(fs, n - 1) + "    "@ + json_quoted(fs[n - 1]) + (if n < fs.len() {
            ",\n"@
        } else {
            "\n"@
        })
    }
}

/// A pretty-printed JSON string array at the second level of nesting.
pub open spec fn json_array(fs: Seq<Seq<char>>) -> Seq<char> {
    if fs.len() == 0 {
        "[]"@
    } else {
        "[\n"@ + json_items(fs, fs.len() as int) + "  ]"@
    }
}

/// The JSON listing: a `zenith-fonts-v1` envelope with both lists,
/// pretty-printed with two-space indentation.
pub open spec fn fonts_json(bundled: Seq<Seq<char>>, local: Seq<Seq<char>>) -> Seq<char> {
    "{\n  \"schema\": \"zenith-fonts-v1\",\n  \"bundled\": "@ + json_array(bundled)
        + ",\n  \"local\": "@ + json_array(local) + "\n}"@
}

fn push_line(out: &mut String, first: bool, line: &str)
    ensures
        final(out)@ == if first {
            old(out)@ + line@
        } else {
            old(out)@ + "\n"@ + line@
        },
{
    if !first {
        out.append("\n");
    }
    out.append(line);
}

fn append_json_array(out: &mut String, fs: &Vec<String>)
    ensures
        final(out)@ == old(out)@ + json_array(strings_view(fs@)),
{
    let ghost fv = strings_view(fs@);
    if fs.len() == 0 {
        out.append("[]");
        return;
    }
    out.append("[\n");
    let ghost start = out@;
    let mut i: usize = 0;
    while i < fs.len()
        invariant
            i <= fs@.len(),
            fv == strings_view(fs@),
            out@ == start + json_items(fv, i as int),
        decreases fs@.len() - i,
    {
        out.append("    ");
        let q = json_quote(fs[i].as_str());
        out.append(q.as_str());
        if i + 1 < fs.len() {
            out.append(",\n");
        } else {
            out.append("\n");
        }
        i = i + 1;
        assert(out@ =~= start + json_items(fv, i as int));
    }
    out.append("  ]");
    assert(out@ =~= old(out)@ + json_array(fv));
}

/// The `fonts` listing of the already sorted `bundled` and `local` family
/// lists: JSON when `json` is set, else the human sections.
pub fn fonts_listing(bundled: &Vec<String>, local: &Vec<String>, json: bool) -> (r: String)
    ensures
        r@ == if json {
            fonts_json(strings_view(bundled@), strings_view(local@))
        } else {
            fonts_human(strings_view(bundled@), strings_view(local@))
        },
{
    let ghost bv = strings_view(bundled@);
    let ghost lv = strings_view(local@);
    if json {
        let mut out = String::new();
        out.append("{\n  \"schema\": \"zenith-fonts-v1\",\n  \"bundled\": ");
        append_json_array(&mut out, bundled);
        out.append(",\n  \"local\": ");
        append_json_array(&mut out, local);
        out.append("\n}");
        return out;
    }
    let mut lines: Vec<String> = Vec::new();
    lines.push("Bundled (portable)".to_owned());
    lines.push("──────────────────".to_owned());
    if bundled.len() == 0 {
        lines.push("  (none)".to_owned());
    } else {
        let mut i: usize = 0;
        while i < bundled.len()
            invariant
                i <= bundled@.len(),
                bv == strings_view(bundled@),
                bundled@.len() > 0,
                strings_view(lines@) == seq!["Bundled (portable)"@, bundled_rule()] + indented(
                    bv.take(i as int),
                ),
            decreases bundled@.len() - i,
        {
            let mut l = "  ".to_owned();
            l.append(bundled[i].as_str());
            let ghost before = lines@;
            lines.push(l);
            assert(strings_view(lines@) =~= strings_view(before).push("  "@ + bv[i as int]));
            assert(indented(bv.take(i + 1)) =~= indented(bv.take(i as int)).push("  "@ + bv[i as int]));
            i = i + 1;
            assert(strings_view(lines@) =~= seq!["Bundled (portable)"@, bundled_rule()] + indented(
                bv.take(i as int),
            ));
        }
        assert(bv.take(i as int) =~= bv);
    }
    assert(strings_view(lines@) =~= seq!["Bundled (portable)"@, bundled_rule()] + (if bv.len() == 0 {
        seq!["  (none)"@]
    } else {
        indented(bv)
    }));
    lines.push(String::new());
    lines.push("Local / system (this machine only)".to_owned());
    lines.push("──────────────────────────────────".to_owned());
    let ghost head = strings_view(lines@);
    assert(head =~= seq!["Bundled (portable)"@, bundled_rule()] + (if bv.len() == 0 {
        seq!["  (none)"@]
    } else {
        indented(bv)
    }) + seq![Seq::empty(), "Local / system (this machine only)"@, local_rule()]);
    if local.len() == 0 {
        lines.push("  (none found)".to_owned());
    } else {
        let mut i: usize = 0;
        while i < local.len()
            invariant
                i <= local@.len(),
                lv == strings_view(local@),
                local@.len() > 0,
                strings_view(lines@) == head + indented(lv.take(i as int)),
            decreases local@.len() - i,
        {
            let mut l = "  ".to_owned();
            l.append(local[i].as_str());
            let ghost before = lines@;
            lines.push(l);
            assert(strings_view(lines@) =~= strings_view(before).push("  "@ + lv[i as int]));
            assert(indented(lv.take(i + 1)) =~= indented(lv.take(i as int)).push("  "@ + lv[i as int]));
            i = i + 1;
            assert(strings_view(lines@) =~= head + indented(lv.take(i as int)));
        }
        assert(lv.take(i as int) =~= lv);
        let ghost mid = strings_view(lines@);
        lines.push(String::new());
        lines.push(
            "Note: local fonts are not portable — renders that use them may differ on another machine and trip a `font.local` advisory.".to_owned(),
        );
        assert(strings_view(lines@) =~= mid + seq![Seq::empty(), local_note()]);
    }
    assert(strings_view(lines@) =~= fonts_human_lines(bv, lv));
    let mut out = String::new();
    let mut k: usize = 0;
    while k < lines.len()
        invariant
            k <= lines@.len(),
            lines@.len() > 0,
            out@ == join(strings_view(lines@).take(k as int), "\n"@),
        decreases lines@.len() - k,
    {
        push_line(&mut out, k == 0, lines[k].as_str());
        k = k + 1;
        assert(strings_view(lines@).take(k as int).drop_last() =~= strings_view(lines@).take(
            k - 1,
        ));
    }
    assert(strings_view(lines@).take(k as int) =~= strings_view(lines@));
    out
}


/// The `fonts list` command on the families found: the bundled faces'
/// family names and the local families scanned from the OS font
/// directories, deduplicated and sorted as [`sort_families`] does, then
/// listed as [`fonts_listing`] does. Listing always succeeds (exit code 0).
pub fn list(bundled: &Vec<String>, local: &Vec<String>, json: bool) -> (r: (String, u8))
    ensures
        r.1 == 0,
        exists|b: Seq<Seq<char>>, l: Seq<Seq<char>>|
            #![trigger listed_by_key(b, first_by_key(strings_view(bundled@), Map::empty(), bundled@.len() as int)), listed_by_key(l, first_by_key(strings_view(local@), first_by_key(strings_view(bundled@), Map::empty(), bundled@.len() as int), local@.len() as int))]
            {
                &&& listed_by_key(b, first_by_key(strings_view(bundled@), Map::empty(), bundled@.len() as int))
                &&& listed_by_key(
                    l,
                    first_by_key(
                        strings_view(local@),
                        first_by_key(strings_view(bundled@), Map::empty(), bundled@.len() as int),
                        local@.len() as int,
                    ),
                )
                &&& r.0@ == if json {
                    fonts_json(b, l)
                } else {
                    fonts_human(b, l)
                }
            },
{
    let (b, l) = sort_families(bundled, local);
    let out = fonts_listing(&b, &l, json);
    (out, 0)
}

} // verus!
