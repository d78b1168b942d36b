use std::path::PathBuf;

use jekyll_to_hugo::date::extract_date;
use jekyll_to_hugo::destination::{
    folder_of, setup_file_destination, strip_extension, strip_first_date, Cli, Context,
    PlanError,
};

fn context(no_folders: bool, keep_dates: bool) -> Context {
    Context {
        no_folders,
        pattern: String::from("**/*.md"),
        results_dir: String::from("output"),
        clean_dir: false,
        keep_dates,
        no_url_replace: false,
        no_slug: false,
    }
}

#[test]
fn test_file_destination_no_args() -> Result<(), String> {
    let context = Context {
        no_folders: false,
        pattern: String::from("**/*.md"),
        results_dir: String::from("output"),
        clean_dir: false,
        keep_dates: false,
        no_url_replace: false,
        no_slug: false,
    };

    let result = setup_file_destination(String::from("2012-03-22-some-post.md"), &context)
        .map_err(|e| e.message())?;
    assert_eq!(result.new_date, "2012-03-22T22:40:32.169Z");
    assert_eq!(result.slug, "some-post");
    assert_eq!(result.new_name, "some-post");
    assert_eq!(PathBuf::from(&result.output_path), PathBuf::from("output/some-post/index.md"));
    Ok(())
}

#[test]
fn test_file_destination_keep_date() -> Result<(), String> {
    let context = Context {
        no_folders: false,
        pattern: String::from("**/*.md"),
        results_dir: String::from("output"),
        clean_dir: false,
        keep_dates: true,
        no_url_replace: false,
        no_slug: false,
    };

    let result = setup_file_destination(String::from("2008-12-03-a-post.md"), &context)
        .map_err(|e| e.message())?;
    assert_eq!(result.new_date, "2008-12-03T22:40:32.169Z");
    assert_eq!(result.slug, "a-post");
    assert_eq!(result.new_name, "2008-12-03-a-post");
    assert_eq!(
        PathBuf::from(&result.output_path),
        PathBuf::from("output/2008-12-03-a-post/index.md")
    );
    Ok(())
}

#[test]
fn test_file_destination_no_folders_keep_date() -> Result<(), String> {
    let context = Context {
        no_folders: true,
        pattern: String::from("**/*.md"),
        results_dir: String::from("output"),
        clean_dir: false,
        keep_dates: true,
        no_url_replace: false,
        no_slug: false,
    };

    let result = setup_file_destination(String::from("2008-12-03-a-post.md"), &context)
        .map_err(|e| e.message())?;
    assert_eq!(result.new_date, "2008-12-03T22:40:32.169Z");
    assert_eq!(result.slug, "a-post");
    assert_eq!(result.new_name, "2008-12-03-a-post");
    assert_eq!(PathBuf::from(&result.output_path), PathBuf::from("output/2008-12-03-a-post.md"));
    Ok(())
}

#[test]
fn output_path_is_exact_text() {
    let r = setup_file_destination(String::from("2012-03-22-some-post.md"), &context(false, false));
    let r = r.ok().unwrap();
    assert_eq!(r.output_path, "output/some-post/index.md");
    let r = setup_file_destination(String::from("2012-03-22-some-post.md"), &context(true, false));
    assert_eq!(r.ok().unwrap().output_path, "output/some-post.md");
}

#[test]
fn timestamp_keeps_digits_without_calendar_check() {
    let r = setup_file_destination(String::from("2008-13-99-x.md"), &context(false, false));
    let r = r.ok().unwrap();
    assert_eq!(r.new_date, "2008-13-99T22:40:32.169Z");
    assert_eq!(r.slug, "x");
}

#[test]
fn name_without_date_is_refused() {
    for name in ["some-post.md", "2012-3-22-post.md", "12-03-22-post.md", "2012-03-22.md", ""] {
        match setup_file_destination(String::from(name), &context(false, false)) {
            Err(PlanError::NoDateFound(n)) => assert_eq!(n, name),
            Ok(_) => panic!("planned {}", name),
        }
    }
}

#[test]
fn no_date_message_names_the_file() {
    let e = PlanError::NoDateFound(String::from("post.md"));
    assert_eq!(e.message(), "Couldn't find a date in file name post.md");
}

#[test]
fn date_found_anywhere_in_name() {
    let r = setup_file_destination(String::from("draft-2012-03-22-post.md"), &context(false, false));
    let r = r.ok().unwrap();
    assert_eq!(r.new_date, "2012-03-22T22:40:32.169Z");
    assert_eq!(r.slug, "draft-post");
}

#[test]
fn leftmost_date_is_taken() {
    let d = extract_date("2001-02-03-2004-05-06-x.md").unwrap();
    assert_eq!((d.year.as_str(), d.month.as_str(), d.day.as_str()), ("2001", "02", "03"));
    assert!(extract_date("2001-02-03x").is_none());
}

#[test]
fn extension_cut_at_first_dot() {
    assert_eq!(strip_extension("2020-01-01-v1.2-notes.md"), "2020-01-01-v1");
    assert_eq!(strip_extension("no-dot"), "no-dot");
    assert_eq!(strip_extension(".hidden"), "");
    let r = setup_file_destination(String::from("2020-01-01-v1.2-notes.md"), &context(false, true));
    let r = r.ok().unwrap();
    assert_eq!(r.new_name, "2020-01-01-v1");
    assert_eq!(r.slug, "v1");
}

#[test]
fn first_date_stripped_once() {
    assert_eq!(strip_first_date("2001-02-03-2004-05-06-x"), "2004-05-06-x");
    assert_eq!(strip_first_date("plain"), "plain");
}

#[test]
fn empty_slug_is_kept_empty() {
    let r = setup_file_destination(String::from("2012-03-22-.md"), &context(false, false));
    let r = r.ok().unwrap();
    assert_eq!(r.slug, "");
    assert_eq!(r.output_path, "output//index.md");
}

#[test]
fn folder_only_with_folders() {
    assert_eq!(folder_of("a-post", &context(false, false)), Some(String::from("output/a-post")));
    assert_eq!(folder_of("a-post", &context(true, false)), None);
}

#[test]
fn context_from_cli_copies_every_setting() {
    let cli = Cli {
        no_folders: true,
        pattern: String::from("*.md"),
        results_dir: String::from("out"),
        clean_dir: true,
        keep_dates: false,
        no_url_replace: true,
        no_slug: false,
    };
    let c = Context::from_cli(cli);
    assert!(c.no_folders && c.clean_dir && c.no_url_replace);
    assert!(!c.keep_dates && !c.no_slug);
    assert_eq!(c.pattern, "*.md");
    assert_eq!(c.results_dir, "out");
}

#[test]
fn dates_agree_with_the_regex_form() {
    let re = regex::Regex::new(r"(?P<y>\d{4})-(?P<m>\d{2})-(?P<d>\d{2})-").unwrap();
    for name in ["2012-03-22-some-post.md", "x-1999-12-31-y", "1234-56-78", "aa2000-01-01-b.c"] {
        let ours = extract_date(name).map(|d| (d.year, d.month, d.day));
        let theirs = re.captures(name).map(|c| {
            (c["y"].to_string(), c["m"].to_string(), c["d"].to_string())
        });
        assert_eq!(ours, theirs);
    }
}
