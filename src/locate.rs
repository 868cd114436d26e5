//! Where a vault keeps the daily note of a given date.
use vstd::prelude::*;
use crate::date::{render_date, rendered, Date};
use crate::template::{matches_at, occurs, run, strftime_of, to_strftime};
use crate::text::{chars_of, push_all, string_of};

verus! {

/// A vault's daily-note settings; an absent field takes its default.
#[derive(Debug, Default)]
pub struct DailyNotesConfig {
    /// The folder of daily notes, relative to the vault; it may hold date tokens.
    pub folder: Option<String>,
    /// The date-token template of a daily note's name.
    pub format: Option<String>,
}

/// Why no daily-note path could be computed.
#[derive(Clone, Copy, Debug, PartialEq, Eq, Structural)]
pub enum LocateError {
    /// A template translates to a format that the date formatter refuses.
    MalformedTemplate,
}

/// The characters of an optional string.
pub open spec fn opt_view(o: Option<String>) -> Option<Seq<char>> {
    match o {
        Some(s) => Some(s@),
        None => None,
    }
}

/// The template used when the settings give none: `YYYY-MM-DD`.
pub open spec fn default_format() -> Seq<char> {
    seq!['Y', 'Y', 'Y', 'Y', '-', 'M', 'M', '-', 'D', 'D']
}

/// The extension of a note file.
pub open spec fn note_extension() -> Seq<char> {
    seq!['.', 'm', 'd']
}

/// `part` appended to the path `base` as a further component; an absolute
/// `part` replaces `base`.
pub open spec fn join_path(base: Seq<char>, part: Seq<char>) -> Seq<char> {
    if part.len() > 0 && part[0] == '/' {
        part
    } else if base.len() == 0 || base.last() == '/' {
        base + part
    } else {
        base + seq!['/'] + part
    }
}

/// Whether a folder name is rendered as a date: it holds `YYYY`, `MM` or `DD`.
pub open spec fn folder_is_dated(folder: Seq<char>) -> bool {
    occurs(folder, run('Y', 4)) || occurs(folder, run('M', 2)) || occurs(folder, run('D', 2))
}

/// The note file named `stem` inside `folder` of the vault at `vault`; an
/// empty folder is the vault's root.
pub open spec fn note_path(vault: Seq<char>, folder: Seq<char>, stem: Seq<char>) -> Seq<char> {
    if folder.len() == 0 {
        join_path(vault, stem + note_extension())
    } else {
        join_path(join_path(vault, folder), stem + note_extension())
    }
}

/// The path of the daily note of `date` in the vault at `vault`, or `None` where
/// a template cannot be rendered.
pub open spec fn daily_note_location(
    vault: Seq<char>,
    folder: Option<Seq<char>>,
    format: Option<Seq<char>>,
    date: Date,
) -> Option<Seq<char>> {
    let fmt = match format {
        Some(f) => f,
        None => default_format(),
    };
    let folder = match folder {
        Some(f) => f,
        None => seq![],
    };
    let stem = rendered(date, strftime_of(fmt));
    let dir = if folder.len() > 0 && folder_is_dated(folder) {
        rendered(date, strftime_of(folder))
    } else {
        Some(folder)
    };
    match (stem, dir) {
        (Some(s), Some(d)) => Some(note_path(vault, d, s)),
        _ => None,
    }
}

/// Whether `pat` occurs in `s`.
pub fn contains_chars(s: &[char], pat: &[char]) -> (r: bool)
    requires
        pat@.len() > 0,
    ensures
        r == occurs(s@, pat@),
{
    let mut i: usize = 0;
    assert(s@.subrange(0, s@.len() as int) =~= s@);
    while pat.len() <= s.len() - i
        invariant
            i <= s@.len(),
            pat@.len() > 0,
            occurs(s@, pat@) == occurs(s@.subrange(i as int, s@.len() as int), pat@),
        decreases s@.len() - i,
    {
        let ghost rest = s@.subrange(i as int, s@.len() as int);
        assert(rest.subrange(0, pat@.len() as int) =~= s@.subrange(i as int, i + pat@.len()));
        if matches_at(s, i, pat) {
            return true;
        }
        assert(rest.drop_first() =~= s@.subrange(i + 1, s@.len() as int));
        i += 1;
    }
    false
}

/// `part` appended to the path `base` as a further component.
pub fn join_path_chars(base: &[char], part: &[char]) -> (r: Vec<char>)
    ensures
        r@ == join_path(base@, part@),
{
    let mut r: Vec<char> = Vec::new();
    if part.len() > 0 && part[0] == '/' {
        push_all(&mut r, part);
        assert(r@ =~= part@);
        return r;
    }
    push_all(&mut r, base);
    if base.len() > 0 && base[base.len() - 1] != '/' {
        r.push('/');
    }
    push_all(&mut r, part);
    r
}

/// The path of the note file named `stem` inside `folder` of the vault at
/// `vault_path`; an empty folder is the vault's root.
pub fn assemble_note_path(vault_path: &str, folder: &str, stem: &str) -> (r: String)
    ensures
        r@ == note_path(vault_path@, folder@, stem@),
{
    let vault = chars_of(vault_path);
    let dir = chars_of(folder);
    let mut file = chars_of(stem);
    file.push('.');
    file.push('m');
    file.push('d');
    assert(file@ =~= stem@ + note_extension());
    let path = if dir.len() == 0 {
        join_path_chars(vault.as_slice(), file.as_slice())
    } else {
        let base = join_path_chars(vault.as_slice(), dir.as_slice());
        join_path_chars(base.as_slice(), file.as_slice())
    };
    string_of(&path)
}

/// The path of the daily note of `date` in the vault at `vault_path`, under the
/// vault's daily-note settings.
pub fn get_daily_note_path(vault_path: &str, config: &DailyNotesConfig, date: &Date) -> (r: Result<
    String,
    LocateError,
>)
    ensures
        match r {
            Ok(p) => daily_note_location(
                vault_path@,
                opt_view(config.folder),
                opt_view(config.format),
                *date,
            ) == Some(p@),
            Err(_) => daily_note_location(
                vault_path@,
                opt_view(config.folder),
                opt_view(config.format),
                *date,
            ) is None,
        },
{
    let fmt = match &config.format {
        Some(f) => to_strftime(f.as_str()),
        None => {
            proof {
                reveal_strlit("YYYY-MM-DD");
            }
            assert("YYYY-MM-DD"@ =~= default_format());
            to_strftime("YYYY-MM-DD")
        },
    };
    let stem = match render_date(date, fmt.as_str()) {
        Some(s) => s,
        None => return Err(LocateError::MalformedTemplate),
    };
    let folder: String = match &config.folder {
        Some(f) => f.clone(),
        None => String::new(),
    };
    let fchars = chars_of(folder.as_str());
    let yyyy = vec!['Y', 'Y', 'Y', 'Y'];
    let mm = vec!['M', 'M'];
    let dd = vec!['D', 'D'];
    assert(yyyy@ =~= run('Y', 4));
    assert(mm@ =~= run('M', 2));
    assert(dd@ =~= run('D', 2));
    let dated = fchars.len() > 0 && (contains_chars(fchars.as_slice(), yyyy.as_slice())
        || contains_chars(fchars.as_slice(), mm.as_slice()) || contains_chars(
        fchars.as_slice(),
        dd.as_slice(),
    ));
    let dir = if dated {
        let folder_fmt = to_strftime(folder.as_str());
        match render_date(date, folder_fmt.as_str()) {
            Some(d) => d,
            None => return Err(LocateError::MalformedTemplate),
        }
    } else {
        folder
    };
    Ok(assemble_note_path(vault_path, dir.as_str(), stem.as_str()))
}

} // verus!
