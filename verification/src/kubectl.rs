//! The kubectl command lines that the tool runs.

use vstd::prelude::*;
use crate::args::Command;
use crate::text::{has_substring, is_word, occurs_at, white_space};

verus! {

/// The kubectl invocation, with the API server and credentials, that every
/// command line starts with.
pub const KUB_CTL: &'static str = "kubectl -s https://127.0.0.1:6443 --certificate-authority=/srv/kubernetes/ca.pem --client-certificate=/srv/kubernetes/admin.pem  --client-key=/srv/kubernetes/admin-key.pem";

/// The kubectl subcommand, between spaces, that a command runs.
pub open spec fn command_verb(command: Command) -> Seq<char> {
    match command {
        Command::DELETE { .. } => " delete po "@,
        Command::DESCRIBE { .. } => " describe po "@,
        Command::LOG { .. } => " logs "@,
        Command::IMAGE { .. } => " describe po "@,
        Command::CONTAINER { .. } => " describe po "@,
        Command::EXEC { .. } => " exec -it "@,
    }
}

/// What follows the pod name in the command line: a filter of the output
/// for `IMAGE` and `CONTAINER`, and for `EXEC` the shell to start, as this
/// library opens an interactive shell in the pod (`exec -it <pod> -- sh`);
/// nothing for the others.
pub open spec fn command_suffix(command: Command) -> Seq<char> {
    match command {
        Command::IMAGE { .. } => " | grep Image"@,
        Command::CONTAINER { .. } => " | grep container"@,
        Command::EXEC { .. } => " -- sh"@,
        _ => Seq::empty(),
    }
}

/// The command line for `command` on the pod named `pod`: the kubectl
/// invocation, the subcommand, the pod name and what follows it.
pub open spec fn kub_command_line(command: Command, pod: Seq<char>) -> Seq<char> {
    KUB_CTL@ + command_verb(command) + pod + command_suffix(command)
}

/// Builds the command line for `command` on the pod named `pod_name`.
pub fn get_kub_command(command: &Command, pod_name: &str) -> (res: String)
    ensures
        res@ == kub_command_line(*command, pod_name@),
{
    let base = String::from_str(KUB_CTL);
    let res = match command {
        Command::DELETE { .. } => base.concat(" delete po ").concat(pod_name),
        Command::DESCRIBE { .. } => base.concat(" describe po ").concat(pod_name),
        Command::LOG { .. } => base.concat(" logs ").concat(pod_name),
        Command::IMAGE { .. } => base.concat(" describe po ").concat(pod_name).concat(
            " | grep Image",
        ),
        Command::CONTAINER { .. } => base.concat(" describe po ").concat(pod_name).concat(
            " | grep container",
        ),
        Command::EXEC { .. } => base.concat(" exec -it ").concat(pod_name).concat(" -- sh"),
    };
    assert(res@ == KUB_CTL@ + command_verb(*command) + pod_name@ + command_suffix(*command));
    res
}

/// Every command line starts with the kubectl invocation and names the pod.
pub proof fn lemma_command_line_names_pod(command: Command, pod: Seq<char>)
    ensures
        kub_command_line(command, pod).len() >= KUB_CTL@.len(),
        kub_command_line(command, pod).take(KUB_CTL@.len() as int) == KUB_CTL@,
        has_substring(kub_command_line(command, pod), pod),
{
    let line = kub_command_line(command, pod);
    let verb = command_verb(command);
    assert(line.take(KUB_CTL@.len() as int) == KUB_CTL@);
    let at: int = (KUB_CTL@.len() + verb.len()) as int;
    assert(line.subrange(at, at + pod.len()) == pod);
    assert(occurs_at(line, pod, at));
}

/// The characters of the subcommand and the length of the suffix that tell
/// the kinds of command apart.
proof fn lemma_verb_and_suffix_shape(command: Command)
    ensures
        command_verb(command).len() >= 4,
        command_verb(command)[0] == ' ',
        command_verb(command).last() == ' ',
        command_suffix(command).len() > 0 ==> command_suffix(command)[0] == ' ',
        command is DELETE ==> command_verb(command)[1] == 'd' && command_verb(command)[3] == 'l'
            && command_suffix(command).len() == 0,
        command is DESCRIBE ==> command_verb(command)[1] == 'd' && command_verb(command)[3] == 's'
            && command_suffix(command).len() == 0,
        command is IMAGE ==> command_verb(command)[1] == 'd' && command_verb(command)[3] == 's'
            && command_suffix(command).len() == 13,
        command is CONTAINER ==> command_verb(command)[1] == 'd' && command_verb(command)[3] == 's'
            && command_suffix(command).len() == 17,
        command is LOG ==> command_verb(command)[1] == 'l' && command_verb(command)[3] == 'g'
            && command_suffix(command).len() == 0,
        command is EXEC ==> command_verb(command)[1] == 'e' && command_verb(command)[3] == 'e'
            && command_suffix(command).len() == 6,
{
    reveal_strlit(" delete po ");
    reveal_strlit(" describe po ");
    reveal_strlit(" logs ");
    reveal_strlit(" exec -it ");
    reveal_strlit(" | grep Image");
    reveal_strlit(" | grep container");
    reveal_strlit(" -- sh");
}

/// A word followed by a text that is empty or starts with a space is told
/// apart from another such pair: the word ends where the space begins.
proof fn lemma_word_then_spaced(p1: Seq<char>, s1: Seq<char>, p2: Seq<char>, s2: Seq<char>)
    requires
        is_word(p1),
        is_word(p2),
        s1.len() > 0 ==> s1[0] == ' ',
        s2.len() > 0 ==> s2[0] == ' ',
        p1 + s1 == p2 + s2,
    ensures
        p1 == p2,
        s1 == s2,
{
    let y = p1 + s1;
    if p1.len() < p2.len() {
        assert(y[p1.len() as int] == p2[p1.len() as int]);
        assert(!white_space(p2[p1.len() as int]));
        assert(s1.len() > 0);
        assert(y[p1.len() as int] == s1[0]);
    } else if p2.len() < p1.len() {
        assert(y[p2.len() as int] == p1[p2.len() as int]);
        assert(!white_space(p1[p2.len() as int]));
        assert(s2.len() > 0);
        assert((p2 + s2)[p2.len() as int] == s2[0]);
    }
    assert(p1 == y.take(p1.len() as int));
    assert(p2 == (p2 + s2).take(p2.len() as int));
    assert(s1 == y.skip(p1.len() as int));
    assert(s2 == (p2 + s2).skip(p2.len() as int));
}

/// Two command lines on pod names that are words (non-empty, without white
/// space, as the names in a listing are) are the same exactly when the
/// commands are of the same kind and the pod names are the same: distinct
/// actions or pods never give the same kubectl command line.
pub proof fn lemma_command_lines_distinct(c1: Command, p1: Seq<char>, c2: Command, p2: Seq<char>)
    requires
        is_word(p1),
        is_word(p2),
    ensures
        kub_command_line(c1, p1) == kub_command_line(c2, p2) <==> same_kind(c1, c2) && p1 == p2,
{
    if kub_command_line(c1, p1) == kub_command_line(c2, p2) {
        lemma_verb_and_suffix_shape(c1);
        lemma_verb_and_suffix_shape(c2);
        let v1 = command_verb(c1);
        let v2 = command_verb(c2);
        let s1 = command_suffix(c1);
        let s2 = command_suffix(c2);
        let k = KUB_CTL@.len() as int;
        let x1 = v1 + p1 + s1;
        let x2 = v2 + p2 + s2;
        assert(kub_command_line(c1, p1).skip(k) == x1);
        assert(kub_command_line(c2, p2).skip(k) == x2);
        assert(x1 == x2);
        assert(x1[1] == v1[1] && x1[3] == v1[3]);
        assert(x2[1] == v2[1] && x2[3] == v2[3]);
        assert(v1 == v2) by {
            reveal_strlit(" delete po ");
            reveal_strlit(" describe po ");
            reveal_strlit(" logs ");
            reveal_strlit(" exec -it ");
        }
        assert(p1 + s1 == x1.skip(v1.len() as int));
        assert(p2 + s2 == x2.skip(v2.len() as int));
        lemma_word_then_spaced(p1, s1, p2, s2);
    }
}

/// The command line depends on the kind of command, not on the name the
/// command carries.
pub proof fn lemma_command_line_ignores_given_name(c1: Command, c2: Command, pod: Seq<char>)
    requires
        same_kind(c1, c2),
    ensures
        kub_command_line(c1, pod) == kub_command_line(c2, pod),
{
}

/// The two commands are of the same kind.
pub open spec fn same_kind(c1: Command, c2: Command) -> bool {
    ||| c1 is DESCRIBE && c2 is DESCRIBE
    ||| c1 is DELETE && c2 is DELETE
    ||| c1 is IMAGE && c2 is IMAGE
    ||| c1 is CONTAINER && c2 is CONTAINER
    ||| c1 is LOG && c2 is LOG
    ||| c1 is EXEC && c2 is EXEC
}

/// The command line that lists the pods, one per line, without the header.
pub open spec fn list_pods_line() -> Seq<char> {
    KUB_CTL@ + " get po -owide | tail -n+2"@
}

/// Builds the command line that lists the pods.
pub fn list_pods_command() -> (res: String)
    ensures
        res@ == list_pods_line(),
{
    String::from_str(KUB_CTL).concat(" get po -owide | tail -n+2")
}

} // verus!
