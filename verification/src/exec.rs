use vstd::prelude::*;
use crate::query::{opt_texts, shell_split, shell_words};
use crate::text::{
    chars_of, contains_text, extend, has_infix, has_prefix, opt_text, string_of, texts,
};

verus! {

/// What `shlex::try_quote` yields for `word`: the word written so that a shell
/// reads it back as one argument, or `None` where it cannot be written.
pub uninterp spec fn shell_quoted(word: Seq<char>) -> Option<Seq<char>>;

/// Calls `shlex::try_quote`; the contract gives the result its name.
#[verifier::external_body]
fn shell_quote(word: &str) -> (out: Option<String>)
    ensures
        opt_text(out) == shell_quoted(word@),
{
    match shlex::try_quote(word) {
        Ok(q) => Some(q.into_owned()),
        Err(_) => None,
    }
}

/// The placeholder that stands for a path in a command template.
pub open spec fn placeholder() -> Seq<char> {
    seq!['{', '}']
}

/// `s` with every occurrence of `from`, read from the left without overlap,
/// replaced by `to`. An empty `from` occurs nowhere.
pub open spec fn replace_all(s: Seq<char>, from: Seq<char>, to: Seq<char>) -> Seq<char>
    decreases s.len(),
{
    if from.len() == 0 || s.len() == 0 {
        s
    } else if has_prefix(s, from) {
        to + replace_all(s.subrange(from.len() as int, s.len() as int), from, to)
    } else {
        seq![s[0]] + replace_all(s.subrange(1, s.len() as int), from, to)
    }
}

/// `s` with every occurrence of `from` replaced by `to`.
pub fn replace_text(s: &Vec<char>, from: &Vec<char>, to: &Vec<char>) -> (out: Vec<char>)
    ensures
        out@ == replace_all(s@, from@, to@),
{
    let mut out: Vec<char> = Vec::new();
    if from.len() == 0 {
        extend(&mut out, s);
        assert(out@ =~= s@);
        return out;
    }
    let mut i: usize = 0;
    assert(s@.subrange(0, s@.len() as int) =~= s@);
    while i < s.len()
        invariant
            i <= s.len(),
            from@.len() > 0,
            out@ + replace_all(s@.subrange(i as int, s@.len() as int), from@, to@) == replace_all(
                s@,
                from@,
                to@,
            ),
        decreases s.len() - i,
    {
        let ghost rest = s@.subrange(i as int, s@.len() as int);
        let ghost before = out@;
        let hit = crate::text::matches_at(s, from, i);
        proof {
            assert(rest.len() > 0);
            if hit {
                assert(rest.subrange(0, from@.len() as int) =~= s@.subrange(
                    i as int,
                    i + from@.len(),
                ));
            } else if from@.len() <= rest.len() {
                assert(rest.subrange(0, from@.len() as int) =~= s@.subrange(
                    i as int,
                    i + from@.len(),
                ));
            }
            assert(hit == has_prefix(rest, from@));
        }
        if hit {
            extend(&mut out, to);
            i = i + from.len();
            proof {
                assert(rest.subrange(from@.len() as int, rest.len() as int) =~= s@.subrange(
                    i as int,
                    s@.len() as int,
                ));
                assert(out@ + replace_all(s@.subrange(i as int, s@.len() as int), from@, to@)
                    =~= before + replace_all(rest, from@, to@));
            }
        } else {
            out.push(s[i]);
            i = i + 1;
            proof {
                assert(rest.subrange(1, rest.len() as int) =~= s@.subrange(
                    i as int,
                    s@.len() as int,
                ));
                assert(out@ + replace_all(s@.subrange(i as int, s@.len() as int), from@, to@)
                    =~= before + replace_all(rest, from@, to@));
            }
        }
    }
    assert(s@.subrange(i as int, s@.len() as int) =~= Seq::<char>::empty());
    assert(out@ + Seq::<char>::empty() =~= out@);
    out
}

/// The command line for one path: the template with every placeholder replaced
/// by the quoted path, or, where the template holds no placeholder, the template,
/// a space and the quoted path.
pub open spec fn command_line(template: Seq<char>, quoted: Seq<char>) -> Seq<char> {
    if has_infix(template, placeholder()) {
        replace_all(template, placeholder(), quoted)
    } else {
        template + seq![' '] + quoted
    }
}

fn placeholder_chars() -> (p: Vec<char>)
    ensures
        p@ == placeholder(),
{
    let mut p: Vec<char> = Vec::new();
    p.push('{');
    p.push('}');
    assert(p@ =~= placeholder());
    p
}

/// The command line for one path, already quoted.
pub fn command_for(template: &str, quoted: &str) -> (line: String)
    ensures
        line@ == command_line(template@, quoted@),
{
    let t = chars_of(template);
    let q = chars_of(quoted);
    let ph = placeholder_chars();
    if contains_text(&t, &ph) {
        let out = replace_text(&t, &ph, &q);
        string_of(&out)
    } else {
        let mut out = t;
        out.push(' ');
        extend(&mut out, &q);
        string_of(&out)
    }
}

/// A path as it goes into a command line: quoted for the shell, or as it is where
/// it cannot be quoted.
pub open spec fn quoted_or_raw(path: Seq<char>, quoted: Option<Seq<char>>) -> Seq<char> {
    match quoted {
        Some(q) => q,
        None => path,
    }
}

/// The argument vectors that come of command lines: one per line that splits into
/// at least one word, in order.
pub open spec fn runnable(lines: Seq<Option<Seq<Seq<char>>>>) -> Seq<Seq<Seq<char>>>
    decreases lines.len(),
{
    if lines.len() == 0 {
        Seq::empty()
    } else {
        match lines.last() {
            Some(words) => if words.len() > 0 {
                runnable(lines.drop_last()).push(words)
            } else {
                runnable(lines.drop_last())
            },
            None => runnable(lines.drop_last()),
        }
    }
}

/// Whether the template runs once, without any path: there is no hit and the
/// template holds no placeholder.
pub open spec fn runs_bare(hits: nat, template: Seq<char>) -> bool {
    hits == 0 && !has_infix(template, placeholder())
}

/// The words of the command line for each path.
pub open spec fn split_lines(template: Seq<char>, paths: Seq<Seq<char>>) -> Seq<
    Option<Seq<Seq<char>>>,
> {
    Seq::new(
        paths.len(),
        |i: int|
            shell_words(command_line(template, quoted_or_raw(paths[i], shell_quoted(paths[i])))),
    )
}

/// The commands that `--exec` runs: the bare template once where nothing was
/// found and it holds no placeholder, and otherwise one command per path.
pub open spec fn exec_plan(template: Seq<char>, paths: Seq<Seq<char>>) -> Seq<Seq<Seq<char>>> {
    if runs_bare(paths.len(), template) {
        runnable(seq![shell_words(template)])
    } else {
        runnable(split_lines(template, paths))
    }
}

/// The texts of a list of argument vectors.
pub open spec fn argvs(items: Seq<Vec<String>>) -> Seq<Seq<Seq<char>>> {
    Seq::new(items.len(), |i: int| texts(items[i]@))
}

/// Adds the command that a command line splits into to the plan: the words, if
/// the line could be split and holds at least one word; nothing otherwise.
pub fn push_runnable(out: &mut Vec<Vec<String>>, words: Option<Vec<String>>)
    ensures
        argvs(final(out)@) == match opt_texts(words) {
            Some(w) => if w.len() > 0 {
                argvs(old(out)@).push(w)
            } else {
                argvs(old(out)@)
            },
            None => argvs(old(out)@),
        },
{
    let ghost before = argvs(out@);
    match words {
        Some(w) => {
            if w.len() > 0 {
                let ghost wt = texts(w@);
                out.push(w);
                assert(argvs(out@) =~= before.push(wt));
            }
        },
        None => {},
    }
}

/// Plans the commands that `--exec` runs for the paths that a search found. Each
/// command is an argument vector: the program first.
pub fn run_exec(paths: &Vec<String>, template: &str) -> (plan: Vec<Vec<String>>)
    ensures
        argvs(plan@) == exec_plan(template@, texts(paths@)),
{
    let mut plan: Vec<Vec<String>> = Vec::new();
    let t = chars_of(template);
    let ph = placeholder_chars();
    if paths.len() == 0 && !contains_text(&t, &ph) {
        let ghost lines = seq![shell_words(template@)];
        assert(lines.drop_last() =~= Seq::<Option<Seq<Seq<char>>>>::empty());
        assert(argvs(plan@) =~= runnable(lines.drop_last()));
        push_runnable(&mut plan, shell_split(template));
        return plan;
    }
    let ghost lines = split_lines(template@, texts(paths@));
    let mut i: usize = 0;
    assert(lines.subrange(0, 0) =~= Seq::<Option<Seq<Seq<char>>>>::empty());
    assert(argvs(plan@) =~= runnable(lines.subrange(0, 0)));
    while i < paths.len()
        invariant
            i <= paths.len(),
            lines == split_lines(template@, texts(paths@)),
            argvs(plan@) == runnable(lines.subrange(0, i as int)),
        decreases paths.len() - i,
    {
        proof {
            let l = lines.subrange(0, i + 1);
            assert(l.drop_last() =~= lines.subrange(0, i as int));
            assert(l.last() == lines[i as int]);
        }
        let p = paths[i].as_str();
        let quoted: String = match shell_quote(p) {
            Some(q) => q,
            None => p.to_owned(),
        };
        let line = command_for(template, quoted.as_str());
        push_runnable(&mut plan, shell_split(line.as_str()));
        i = i + 1;
    }
    assert(lines.subrange(0, i as int) =~= lines);
    plan
}

} // verus!
