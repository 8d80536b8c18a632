//! The external programs the console drives: what was found, the names a
//! program goes by, and the version line it reports.

use vstd::prelude::*;
use crate::text;
use crate::lines;

verus! {

/// The programs found: each with its path and its version line.
#[derive(Clone, Debug)]
pub struct Tools {
    pub ytdlp: Option<(String, String)>,
    pub ffmpeg: Option<(String, String)>,
}

/// The first line of `t` (`str::lines`): up to the first line feed, without
/// a carriage return before it; `None` for empty text.
pub open spec fn first_line(t: Seq<char>) -> Option<Seq<char>> {
    if t.len() == 0 {
        None
    } else {
        let k = text::count_while(t, lines::not_sep('\n')) as int;
        if k < t.len() {
            let l = t.take(k);
            Some(
                if l.len() > 0 && l.last() == '\r' {
                    l.drop_last()
                } else {
                    l
                },
            )
        } else {
            Some(t)
        }
    }
}

/// The version a program reports: the first line of its output (of its
/// error output where the output is blank), trimmed and cut to 48
/// characters; `OK` where it printed nothing at all.
pub open spec fn banner(stdout: Seq<char>, stderr: Seq<char>) -> Seq<char> {
    let t = if text::trimmed(stdout).len() == 0 {
        stderr
    } else {
        stdout
    };
    let l = text::trimmed(
        match first_line(t) {
            Some(l) => l,
            None => "OK"@,
        },
    );
    if l.len() <= 48 {
        l
    } else {
        l.take(48)
    }
}

/// The version line of a program's `--version` output (see `banner`).
pub fn version_banner(stdout: &str, stderr: &str) -> (r: String)
    ensures
        r@ == banner(stdout@, stderr@),
{
    let out = text::chars_of(stdout);
    let t = if text::trim(&out).len() == 0 {
        text::chars_of(stderr)
    } else {
        out
    };
    let line: Vec<char> = if t.len() == 0 {
        text::chars_of("OK")
    } else {
        let (l, rest) = lines::split_at_sep(&t, '\n');
        match rest {
            Some(_) => {
                if l.len() > 0 && l[l.len() - 1] == '\r' {
                    let d = text::slice_vec(&l, 0, l.len() - 1);
                    assert(d@ =~= l@.drop_last());
                    d
                } else {
                    l
                }
            },
            None => {
                proof {
                    text::lemma_count_while_stop(t@, lines::not_sep('\n'));
                    assert(l@ =~= t@);
                }
                l
            },
        }
    };
    let l = text::trim(&line);
    let n = if l.len() <= 48 {
        l.len()
    } else {
        48
    };
    let cut = text::slice_vec(&l, 0, n);
    assert(l@.len() <= 48 ==> cut@ =~= l@);
    text::string_of(&cut)
}

/// The pieces of a `;`-separated list from `s` on, trimmed, blanks left out,
/// one leading `.` removed from each.
pub open spec fn ext_pieces(s: Seq<char>) -> Seq<Seq<char>>
    decreases s.len(),
{
    let k = text::count_while(s, lines::not_sep(';')) as int;
    let p = text::trimmed(s.take(k));
    let here = if p.len() == 0 {
        Seq::empty()
    } else {
        seq![
            if p[0] == '.' {
                p.skip(1)
            } else {
                p
            },
        ]
    };
    if k < s.len() {
        here + ext_pieces(s.skip(k + 1))
    } else {
        here
    }
}

/// `name.ext` for each extension.
pub open spec fn ext_names(name: Seq<char>, exts: Seq<Seq<char>>) -> Seq<Seq<char>> {
    exts.map_values(|e: Seq<char>| name + "."@ + e)
}

/// The file names a program may have: on Windows a name without an
/// extension is also tried with each executable extension of `PATHEXT`
/// (by default `.EXE;.CMD;.BAT;.COM`); elsewhere the name itself.
pub open spec fn program_names(name: Seq<char>, windows: bool, pathext: Option<Seq<char>>) -> Seq<Seq<char>> {
    if !windows || text::contains_seq(name, "."@) {
        seq![name]
    } else {
        let exts = ext_pieces(
            match pathext {
                Some(p) => p,
                None => ".EXE;.CMD;.BAT;.COM"@,
            },
        );
        seq![name] + ext_names(name, exts)
    }
}

fn push_ext_names(names: &mut Vec<String>, name: &str, list: &[char])
    ensures
        text::views(final(names)@) == text::views(old(names)@) + ext_names(name@, ext_pieces(list@)),
{
    let mut rest = text::slice_vec(list, 0, list.len());
    assert(rest@ =~= list@);
    let ghost start = text::views(names@);
    loop
        invariant
            start == text::views(old(names)@),
            text::views(names@) + ext_names(name@, ext_pieces(rest@))
                == start + ext_names(name@, ext_pieces(list@)),
        decreases rest.len(),
    {
        let ghost before = rest@;
        let ghost v0 = text::views(names@);
        let (piece, after) = lines::split_at_sep(&rest, ';');
        let p = text::trim(&piece);
        proof {
            text::lemma_count_while_stop(before, lines::not_sep(';'));
        }
        let ghost here = if p@.len() == 0 {
            Seq::<Seq<char>>::empty()
        } else {
            seq![
                if p@[0] == '.' {
                    p@.skip(1)
                } else {
                    p@
                },
            ]
        };
        if p.len() > 0 {
            let e = if p[0] == '.' {
                text::slice_vec(&p, 1, p.len())
            } else {
                text::slice_vec(&p, 0, p.len())
            };
            let mut out: Vec<char> = Vec::new();
            text::push_str(&mut out, name);
            text::push_str(&mut out, ".");
            text::push_chars(&mut out, &e);
            text::push_string(names, text::string_of(&out));
            proof {
                if p@[0] == '.' {
                    assert(e@ =~= p@.skip(1));
                } else {
                    assert(e@ =~= p@);
                }
            }
            assert(ext_names(name@, here) =~= seq![name@ + "."@ + e@]);
        } else {
            assert(ext_names(name@, here) =~= Seq::<Seq<char>>::empty());
        }
        assert(text::views(names@) =~= v0 + ext_names(name@, here));
        match after {
            Some(a) => {
                assert(ext_pieces(before) == here + ext_pieces(a@));
                assert(ext_names(name@, (here + ext_pieces(a@))) =~= ext_names(name@, here) + ext_names(name@, ext_pieces(a@)));
                rest = a;
            },
            None => {
                assert(ext_pieces(before) == here);
                return;
            },
        }
    }
}

/// The file names to look for a program under (see `program_names`).
pub fn tool_filenames(name: &str, windows: bool, pathext: Option<&str>) -> (r: Vec<String>)
    ensures
        text::views(r@) == program_names(name@, windows, crate::update::opt_str(pathext)),
{
    let mut names: Vec<String> = Vec::new();
    text::push_owned(&mut names, name);
    if !windows || text::contains(&text::chars_of(name), &text::chars_of(".")) {
        return names;
    }
    let list = match pathext {
        Some(p) => text::chars_of(p),
        None => text::chars_of(".EXE;.CMD;.BAT;.COM"),
    };
    push_ext_names(&mut names, name, &list);
    names
}

} // verus!
