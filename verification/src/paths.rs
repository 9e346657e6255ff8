//! Where the history and the paste flag are kept.

use vstd::prelude::*;

use crate::text::{chars_of, viewed};

verus! {

/// A relative path appended to a directory, with one separator between them
/// unless the directory is empty or ends in one.
pub open spec fn joined(dir: Seq<char>, rest: Seq<char>) -> Seq<char> {
    if dir.len() == 0 || dir.last() == '/' {
        dir + rest
    } else {
        dir.push('/') + rest
    }
}

/// The home directory: the root where none is known.
pub open spec fn home_or_root(home: Option<Seq<char>>) -> Seq<char> {
    match home {
        Some(h) => h,
        None => "/"@,
    }
}

/// The directory that holds everything this program keeps.
pub open spec fn data_dir(home: Option<Seq<char>>) -> Seq<char> {
    joined(home_or_root(home), ".yank"@)
}

/// Appends a relative path to a directory.
pub fn join(dir: &str, rest: &str) -> (path: String)
    ensures
        path@ == joined(dir@, rest@),
{
    let v: Vec<char> = chars_of(dir);
    let mut path: String = dir.to_owned();
    if v.len() > 0 && v[v.len() - 1] != '/' {
        path.push('/');
    }
    path.append(rest);
    path
}

fn data_path(home: Option<&str>) -> (path: String)
    ensures
        path@ == data_dir(viewed(home)),
{
    match home {
        Some(h) => join(h, ".yank"),
        None => join("/", ".yank"),
    }
}

/// The directory of the history entries.
pub fn hist_dir(home: Option<&str>) -> (path: String)
    ensures
        path@ == joined(home_or_root(viewed(home)), ".yank/hist"@),
        path@ == joined(data_dir(viewed(home)), "hist"@),
{
    let path: String = join(data_path(home).as_str(), "hist");
    proof {
        reveal_strlit(".yank");
        reveal_strlit("hist");
        reveal_strlit(".yank/hist");
        let h = home_or_root(viewed(home));
        assert(data_dir(viewed(home)).last() == 'k');
        assert(path@ =~= joined(h, ".yank/hist"@));
    }
    path
}

/// The file that the picker leaves to say that an entry is to be pasted. It
/// stands beside the history directory, which always has a parent.
pub fn paste_flag(home: Option<&str>) -> (path: String)
    ensures
        path@ == joined(data_dir(viewed(home)), "paste"@),
{
    join(data_path(home).as_str(), "paste")
}

/// The paste flag is no file of the history: it does not stand in the history
/// directory.
pub proof fn flag_is_outside_the_history(home: Option<Seq<char>>)
    ensures
        !joined(data_dir(home), "hist"@).is_prefix_of(joined(data_dir(home), "paste"@)),
{
    reveal_strlit(".yank");
    reveal_strlit("hist");
    reveal_strlit("paste");
    let d = data_dir(home);
    let hist = joined(d, "hist"@);
    let flag = joined(d, "paste"@);
    assert(d.last() == 'k');
    let k = d.len() as int + 1;
    assert(hist[k] == 'h');
    assert(flag[k] == 'p');
    if hist.is_prefix_of(flag) {
        assert(hist[k] == flag.subrange(0, hist.len() as int)[k]);
    }
}

/// A joined path starts with the directory and ends in the rest, with a separator
/// between them where there is none yet, and with nothing else.
pub proof fn joining_keeps_both_parts(dir: Seq<char>, rest: Seq<char>)
    ensures
        dir.is_prefix_of(joined(dir, rest)),
        rest.is_suffix_of(joined(dir, rest)),
        dir.len() > 0 && dir.last() != '/' ==> joined(dir, rest).len() == dir.len() + 1 + rest.len()
            && joined(dir, rest)[dir.len() as int] == '/',
        dir.len() == 0 || dir.last() == '/' ==> joined(dir, rest).len() == dir.len() + rest.len(),
{
    let p = joined(dir, rest);
    assert(p.subrange(0, dir.len() as int) =~= dir);
    assert(p.subrange((p.len() - rest.len()) as int, p.len() as int) =~= rest);
}

/// Everything is kept in one directory below the home directory, or below the root
/// where none is known.
pub proof fn everything_is_below_the_home_directory(home: Option<Seq<char>>)
    ensures
        home is None ==> data_dir(home) == "/.yank"@,
        home is Some ==> home->0.is_prefix_of(data_dir(home)) && ".yank"@.is_suffix_of(
            data_dir(home),
        ),
        home is Some && home->0.len() > 0 && home->0.last() != '/' ==> data_dir(home)
            == home->0.push('/') + ".yank"@,
        home is Some && (home->0.len() == 0 || home->0.last() == '/') ==> data_dir(home) == home->0
            + ".yank"@,
{
    reveal_strlit("/");
    reveal_strlit(".yank");
    reveal_strlit("/.yank");
    match home {
        Some(h) => {
            joining_keeps_both_parts(h, ".yank"@);
        },
        None => {
            assert("/"@ =~= seq!['/']);
            assert(data_dir(home) =~= "/.yank"@);
        },
    }
}

} // verus!
