use rkubectl::args::Command;
use rkubectl::kubectl::{get_kub_command, list_pods_command, KUB_CTL};

fn cmd(f: fn(String) -> Command) -> Command {
    f("ignored".to_string())
}

#[test]
fn command_lines_per_kind() {
    let p = "pod-1";
    assert_eq!(
        get_kub_command(&cmd(|name| Command::DELETE { name }), p),
        format!("{} delete po pod-1", KUB_CTL)
    );
    assert_eq!(
        get_kub_command(&cmd(|name| Command::DESCRIBE { name }), p),
        format!("{} describe po pod-1", KUB_CTL)
    );
    assert_eq!(
        get_kub_command(&cmd(|name| Command::LOG { name }), p),
        format!("{} logs pod-1", KUB_CTL)
    );
    assert_eq!(
        get_kub_command(&cmd(|name| Command::IMAGE { name }), p),
        format!("{} describe po pod-1 | grep Image", KUB_CTL)
    );
    assert_eq!(
        get_kub_command(&cmd(|name| Command::CONTAINER { name }), p),
        format!("{} describe po pod-1 | grep container", KUB_CTL)
    );
    assert_eq!(
        get_kub_command(&cmd(|name| Command::EXEC { name }), p),
        format!("{} exec -it pod-1 -- sh", KUB_CTL)
    );
}

#[test]
fn listing_command() {
    assert_eq!(
        list_pods_command(),
        "kubectl -s https://127.0.0.1:6443 --certificate-authority=/srv/kubernetes/ca.pem --client-certificate=/srv/kubernetes/admin.pem  --client-key=/srv/kubernetes/admin-key.pem get po -owide | tail -n+2"
    );
}

#[test]
fn pod_name_of_command() {
    assert_eq!(Command::IMAGE { name: "kg".to_string() }.pod_name(), "kg");
}
