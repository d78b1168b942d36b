use jekyll_to_hugo::destination::{setup_file_destination, Context};
use jekyll_to_hugo::rewrite::{
    frontmatter_header, remove_url_tokens, replace_first_marker, rewrite,
};

fn context(no_url_replace: bool, no_slug: bool) -> Context {
    Context {
        no_folders: false,
        pattern: String::from("**/*.md"),
        results_dir: String::from("output"),
        clean_dir: false,
        keep_dates: false,
        no_url_replace,
        no_slug,
    }
}

#[test]
fn header_with_and_without_slug() {
    assert_eq!(
        frontmatter_header("2012-03-22T22:40:32.169Z", "p", false),
        "---\ndate: \"2012-03-22T22:40:32.169Z\"\nslug: \"p\"\n"
    );
    assert_eq!(frontmatter_header("d", "p", true), "---\ndate: \"d\"\n");
}

#[test]
fn only_first_marker_replaced() {
    let s = "---\ntitle: x\n---\nbody\n";
    assert_eq!(replace_first_marker(s, "H\n"), "H\ntitle: x\n---\nbody\n");
}

#[test]
fn crlf_marker_replaced_whole() {
    assert_eq!(replace_first_marker("---\r\ntitle: x\r\n", "H\n"), "H\ntitle: x\r\n");
}

#[test]
fn text_without_marker_unchanged() {
    for s in ["", "no front matter", "--\n", "---", "--- \n", "---\rx"] {
        assert_eq!(replace_first_marker(s, "H\n"), s);
    }
}

#[test]
fn marker_found_after_other_text() {
    assert_eq!(replace_first_marker("ab----\nc", "H"), "ab-Hc");
}

#[test]
fn url_tokens_removed_everywhere() {
    let s = "[a]({{ site.url }}{{ site.baseurl }}/x) [b]({{site.url}} {{site.baseurl}}/y)";
    assert_eq!(remove_url_tokens(s), "[a](/x) [b](/y)");
    let t = "{{\tsite_url\n}}\u{a0}{{  site-baseurl }}z";
    assert_eq!(remove_url_tokens(t), "z");
}

#[test]
fn partial_url_tokens_kept() {
    for s in ["{{ site.url }}", "{{ site.baseurl }}", "{{ site\nurl }}{{ site.baseurl }}", "{ site.url }{ site.baseurl }"] {
        assert_eq!(remove_url_tokens(s), s);
    }
}

#[test]
fn stripping_does_not_rescan() {
    let s = "{{{{ site.url }}{{ site.baseurl }} site.url }}{{ site.baseurl }}";
    assert_eq!(remove_url_tokens(s), "{{ site.url }}{{ site.baseurl }}");
}

#[test]
fn rewrite_whole_post() {
    let d = setup_file_destination(String::from("2012-03-22-some-post.md"), &context(false, false));
    let d = d.ok().unwrap();
    let content = "---\ntitle: T\ndate: old\n---\nSee {{ site.url }}{{ site.baseurl }}/a.\n";
    assert_eq!(
        rewrite(content, &d, &context(false, false)),
        "---\ndate: \"2012-03-22T22:40:32.169Z\"\nslug: \"some-post\"\ntitle: T\ndate: old\n---\nSee /a.\n"
    );
    assert_eq!(
        rewrite(content, &d, &context(true, true)),
        "---\ndate: \"2012-03-22T22:40:32.169Z\"\ntitle: T\ndate: old\n---\nSee {{ site.url }}{{ site.baseurl }}/a.\n"
    );
}

#[test]
fn rewrite_without_marker_only_strips() {
    let d = setup_file_destination(String::from("2012-03-22-p.md"), &context(false, false));
    let d = d.ok().unwrap();
    assert_eq!(rewrite("{{site.url}}{{site.baseurl}}/a", &d, &context(false, false)), "/a");
    assert_eq!(rewrite("plain", &d, &context(true, false)), "plain");
}

#[test]
fn url_stripping_agrees_with_the_regex_form() {
    let re = regex::Regex::new(r"\{\{\s*site.url\s*\}\}\s*\{\{\s*site.baseurl\s*\}\}").unwrap();
    for s in [
        "a {{ site.url }}{{ site.baseurl }} b {{site.url}}{{site.baseurl}}",
        "{{ siteXurl }}\n\n{{ site baseurl\t}}",
        "{{{{ site.url }}{{ site.baseurl }} site.url }}{{ site.baseurl }}",
        "{{ site.url }} {{ site.base }}",
    ] {
        assert_eq!(remove_url_tokens(s), re.replace_all(s, "").to_string());
    }
}
