use rkubectl::pod::{check_pod_listing, convert_to_kub_info, parse_pod_list, PodInfo};

const LINE: &str = "sophon-kg-sophon2-bf9769d97-4hqgv   1/1     Running   0   56m   172.26.0.124   kg-node43   <none>   <none>";

#[test]
fn converting_a_listing_line() {
    let pod = convert_to_kub_info(LINE);
    assert_eq!(pod.name(), "sophon-kg-sophon2-bf9769d97-4hqgv");
    assert_eq!(
        pod.to_string(),
        "sophon-kg-sophon2-bf9769d97-4hqgv\t1/1\tRunning\t0\t56m\t172.26.0.124\tkg-node43\t<none>\t<none>"
    );
}

#[test]
fn a_shown_pod_reads_back() {
    let pod = PodInfo::from_fields(("p", "1/1", "Running", "0", "1d", "10.0.0.1", "n1", "<none>", "<none>"));
    let again = convert_to_kub_info(&pod.to_string());
    assert_eq!(again.to_string(), pod.to_string());
    assert_eq!(pod.copy().to_string(), pod.to_string());
}

#[test]
fn parsing_a_listing() {
    let output = format!("\n  {}\nsophon-ui-sophon2-79c997dd8c-vkths 1/1 Running 1 9d 172.26.0.124 kg-node43 <none> <none>\n\n", LINE);
    assert!(check_pod_listing(&output));
    let pods = parse_pod_list(&output);
    assert_eq!(pods.len(), 2);
    assert_eq!(pods[0].name(), "sophon-kg-sophon2-bf9769d97-4hqgv");
    assert_eq!(pods[1].name(), "sophon-ui-sophon2-79c997dd8c-vkths");
}

#[test]
fn listing_check_rejects_short_lines_and_empty_listings() {
    assert!(!check_pod_listing("a b c"));
    assert!(!check_pod_listing(""));
    assert!(!check_pod_listing("   \n "));
    let output = format!("{}\n{}\nx", LINE, LINE);
    assert!(!check_pod_listing(&output));
    assert!(check_pod_listing(LINE));
}
