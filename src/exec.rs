//! The commands to run once a variant is applied.
use vstd::prelude::*;

verus! {

/// The variable that carries the applied profile's name.
pub open spec fn profile_env() -> Seq<char> {
    "SHIKANE_PROFILE_NAME"@
}

/// The variable that carries a head's name.
pub open spec fn output_env() -> Seq<char> {
    "SHIKANE_OUTPUT_NAME"@
}

/// A head's name and commands, as text.
pub open spec fn head_entry(h: (String, Vec<String>)) -> (Seq<char>, Seq<String>) {
    (h.0@, h.1@)
}

pub open spec fn heads_view(hs: Seq<(String, Vec<String>)>) -> Seq<(Seq<char>, Seq<String>)> {
    hs.map_values(|h: (String, Vec<String>)| head_entry(h))
}

/// The first position, from `i` on, of a head named `name`.
pub open spec fn named_index(hs: Seq<(Seq<char>, Seq<String>)>, name: Seq<char>, i: nat) -> Option<int>
    decreases hs.len() - i,
{
    if i >= hs.len() {
        None
    } else if hs[i as int].0 == name {
        Some(i as int)
    } else {
        named_index(hs, name, i + 1)
    }
}

/// Sets the commands of the head named `name`: in its place where it is
/// listed, else at the end.
pub open spec fn insert_named(hs: Seq<(Seq<char>, Seq<String>)>, name: Seq<char>, cmds: Seq<String>) -> Seq<
    (Seq<char>, Seq<String>),
> {
    match named_index(hs, name, 0) {
        Some(i) => hs.update(i, (name, cmds)),
        None => hs.push((name, cmds)),
    }
}

/// A command line as text: command, variable name, variable value.
pub open spec fn line_of(l: CommandLine) -> (Seq<char>, Seq<char>, Seq<char>) {
    (l.command@, l.env_name@, l.env_value@)
}

pub open spec fn lines_view(ls: Seq<CommandLine>) -> Seq<(Seq<char>, Seq<char>, Seq<char>)> {
    ls.map_values(|l: CommandLine| line_of(l))
}

/// The profile's commands, each with the profile's name.
pub open spec fn profile_lines(cmds: Seq<String>, name: Seq<char>) -> Seq<(Seq<char>, Seq<char>, Seq<char>)> {
    cmds.map_values(|c: String| (c@, profile_env(), name))
}

/// A head's commands, each with the head's name.
pub open spec fn output_lines(cmds: Seq<String>, name: Seq<char>) -> Seq<(Seq<char>, Seq<char>, Seq<char>)> {
    cmds.map_values(|c: String| (c@, output_env(), name))
}

/// The commands of the first `n` heads, in order.
pub open spec fn head_lines(hs: Seq<(Seq<char>, Seq<String>)>, n: nat) -> Seq<(Seq<char>, Seq<char>, Seq<char>)>
    decreases n,
{
    if n == 0 {
        Seq::empty()
    } else {
        head_lines(hs, (n - 1) as nat) + output_lines(hs[n - 1].1, hs[n - 1].0)
    }
}

/// One shell command with one variable set in its environment.
#[derive(Debug)]
pub struct CommandLine {
    pub command: String,
    pub env_name: String,
    pub env_value: String,
}

/// Collects the commands of a profile and of its heads.
#[derive(Debug)]
pub struct CommandBuilder {
    profile_name: String,
    profile_commands: Vec<String>,
    heads: Vec<(String, Vec<String>)>,
    oneshot: bool,
}

impl CommandBuilder {
    pub closed spec fn profile_name_spec(&self) -> Seq<char> {
        self.profile_name@
    }

    pub closed spec fn profile_commands_spec(&self) -> Seq<String> {
        self.profile_commands@
    }

    /// The heads' names and commands, in the order the heads were first given.
    pub closed spec fn heads_spec(&self) -> Seq<(String, Vec<String>)> {
        self.heads@
    }

    pub open spec fn heads_view_spec(&self) -> Seq<(Seq<char>, Seq<String>)> {
        heads_view(self.heads_spec())
    }

    pub closed spec fn oneshot_spec(&self) -> bool {
        self.oneshot
    }

    pub fn new(profile_name: String) -> (r: CommandBuilder)
        ensures
            r.profile_name_spec() == profile_name@,
            r.profile_commands_spec().len() == 0,
            r.heads_spec().len() == 0,
            !r.oneshot_spec(),
    {
        CommandBuilder { profile_name, profile_commands: Vec::new(), heads: Vec::new(), oneshot: false }
    }

    /// Whether the caller waits for the commands before going on.
    pub fn oneshot(&mut self, oneshot: bool)
        ensures
            final(self).oneshot_spec() == oneshot,
            final(self).profile_name_spec() == old(self).profile_name_spec(),
            final(self).profile_commands_spec() == old(self).profile_commands_spec(),
            final(self).heads_spec() == old(self).heads_spec(),
    {
        self.oneshot = oneshot;
    }

    pub fn is_oneshot(&self) -> (r: bool)
        ensures
            r == self.oneshot_spec(),
    {
        self.oneshot
    }

    pub fn profile_commands(&mut self, profile_commands: Vec<String>)
        ensures
            final(self).profile_commands_spec() == profile_commands@,
            final(self).oneshot_spec() == old(self).oneshot_spec(),
            final(self).profile_name_spec() == old(self).profile_name_spec(),
            final(self).heads_spec() == old(self).heads_spec(),
    {
        self.profile_commands = profile_commands;
    }

    /// Sets the commands of the head `head_name`, replacing any it had.
    pub fn insert_head_commands(&mut self, head_name: String, output_commands: Vec<String>)
        ensures
            final(self).oneshot_spec() == old(self).oneshot_spec(),
            final(self).profile_name_spec() == old(self).profile_name_spec(),
            final(self).profile_commands_spec() == old(self).profile_commands_spec(),
            final(self).heads_view_spec() == insert_named(old(self).heads_view_spec(), head_name@, output_commands@),
            (exists|i: int| 0 <= i < old(self).heads_spec().len() && (#[trigger] old(self).heads_spec()[i]).0@ == head_name@)
                ==> exists|i: int|
                0 <= i < old(self).heads_spec().len() && (#[trigger] old(self).heads_spec()[i]).0@ == head_name@
                    && final(self).heads_spec() == old(self).heads_spec().update(i, (head_name, output_commands)),
            !(exists|i: int| 0 <= i < old(self).heads_spec().len() && (#[trigger] old(self).heads_spec()[i]).0@ == head_name@)
                ==> final(self).heads_spec() == old(self).heads_spec().push((head_name, output_commands)),
    {
        let mut i: usize = 0;
        while i < self.heads.len()
            invariant
                i <= self.heads@.len(),
                self.heads@ == old(self).heads@,
                self.oneshot == old(self).oneshot,
                self.profile_name == old(self).profile_name,
                self.profile_commands == old(self).profile_commands,
                forall|j: int| 0 <= j < i ==> (#[trigger] self.heads@[j]).0@ != head_name@,
                named_index(heads_view(self.heads@), head_name@, 0) == named_index(heads_view(self.heads@), head_name@, i as nat),
            decreases self.heads@.len() - i,
        {
            if self.heads[i].0 == head_name {
                let ghost hn = head_name;
                let ghost oc = output_commands;
                self.heads.set(i, (head_name, output_commands));
                proof {
                    assert(old(self).heads_spec()[i as int].0@ == hn@);
                    assert(self.heads@ == old(self).heads@.update(i as int, (hn, oc)));
                    assert(heads_view(old(self).heads@)[i as int].0 == hn@);
                    assert(heads_view(self.heads@) =~= heads_view(old(self).heads@).update(i as int, (hn@, oc@)));
                }
                return;
            }
            i += 1;
        }
        let ghost hn = head_name;
        let ghost oc = output_commands;
        self.heads.push((head_name, output_commands));
        proof {
            assert(heads_view(self.heads@) =~= heads_view(old(self).heads@).push((hn@, oc@)));
        }
    }

    /// Every command with its variable: the profile's first, then each
    /// head's.
    pub fn create_command_list(&self) -> (r: Vec<CommandLine>)
        ensures
            lines_view(r@) == profile_lines(self.profile_commands_spec(), self.profile_name_spec()) + head_lines(
                self.heads_view_spec(),
                self.heads_view_spec().len(),
            ),
    {
        proof {
            reveal_strlit("SHIKANE_PROFILE_NAME");
            reveal_strlit("SHIKANE_OUTPUT_NAME");
        }
        let ghost pl = profile_lines(self.profile_commands@, self.profile_name@);
        let ghost hv = heads_view(self.heads@);
        let mut out: Vec<CommandLine> = Vec::new();
        let mut i: usize = 0;
        while i < self.profile_commands.len()
            invariant
                i <= self.profile_commands@.len(),
                pl == profile_lines(self.profile_commands@, self.profile_name@),
                lines_view(out@) == profile_lines(self.profile_commands@.subrange(0, i as int), self.profile_name@),
                out@.len() == i,
            decreases self.profile_commands@.len() - i,
        {
            proof {
                reveal_strlit("SHIKANE_PROFILE_NAME");
            }
            let ghost prev = out@;
            out.push(
                CommandLine {
                    command: self.profile_commands[i].clone(),
                    env_name: "SHIKANE_PROFILE_NAME".to_owned(),
                    env_value: self.profile_name.clone(),
                },
            );
            i += 1;
            proof {
                let cs = self.profile_commands@;
                assert(line_of(out@[i - 1]) == (cs[i - 1]@, profile_env(), self.profile_name@));
                assert(lines_view(out@) =~= lines_view(prev).push(line_of(out@[i - 1])));
                assert(profile_lines(cs.subrange(0, i as int), self.profile_name@) =~= profile_lines(
                    cs.subrange(0, i - 1),
                    self.profile_name@,
                ).push((cs[i - 1]@, profile_env(), self.profile_name@)));
            }
        }
        proof {
            assert(self.profile_commands@.subrange(0, i as int) =~= self.profile_commands@);
            assert(pl + head_lines(hv, 0) =~= pl);
        }
        let mut h: usize = 0;
        while h < self.heads.len()
            invariant
                h <= self.heads@.len(),
                hv == heads_view(self.heads@),
                pl == profile_lines(self.profile_commands@, self.profile_name@),
                lines_view(out@) == pl + head_lines(hv, h as nat),
            decreases self.heads@.len() - h,
        {
            let cmds = &self.heads[h].1;
            let mut k: usize = 0;
            proof {
                assert(pl + head_lines(hv, h as nat) + output_lines(cmds@.subrange(0, 0), self.heads@[h as int].0@) =~= pl
                    + head_lines(hv, h as nat));
            }
            while k < cmds.len()
                invariant
                    k <= cmds@.len(),
                    h < self.heads@.len(),
                    cmds == &self.heads@[h as int].1,
                    hv == heads_view(self.heads@),
                    lines_view(out@) == pl + head_lines(hv, h as nat) + output_lines(
                        cmds@.subrange(0, k as int),
                        self.heads@[h as int].0@,
                    ),
                decreases cmds@.len() - k,
            {
                proof {
                    reveal_strlit("SHIKANE_OUTPUT_NAME");
                }
                let ghost prev = out@;
                out.push(
                    CommandLine {
                        command: cmds[k].clone(),
                        env_name: "SHIKANE_OUTPUT_NAME".to_owned(),
                        env_value: self.heads[h].0.clone(),
                    },
                );
                k += 1;
                proof {
                    let nm = self.heads@[h as int].0@;
                    assert(line_of(out@[prev.len() as int]) == (cmds@[k - 1]@, output_env(), nm));
                    assert(lines_view(out@) =~= lines_view(prev).push(line_of(out@[prev.len() as int])));
                    assert(output_lines(cmds@.subrange(0, k as int), nm) =~= output_lines(cmds@.subrange(0, k - 1), nm).push(
                        (cmds@[k - 1]@, output_env(), nm),
                    ));
                    assert(lines_view(out@) =~= pl + head_lines(hv, h as nat) + output_lines(
                        cmds@.subrange(0, k as int),
                        self.heads@[h as int].0@,
                    ));
                }
            }
            proof {
                assert(cmds@.subrange(0, k as int) =~= cmds@);
                assert(hv[h as int] == head_entry(self.heads@[h as int]));
                assert(head_lines(hv, (h + 1) as nat) == head_lines(hv, h as nat) + output_lines(hv[h as int].1, hv[h as int].0));
                assert(pl + head_lines(hv, (h + 1) as nat) =~= pl + head_lines(hv, h as nat) + output_lines(
                    cmds@,
                    self.heads@[h as int].0@,
                ));
            }
            h += 1;
        }
        out
    }

}

} // verus!
