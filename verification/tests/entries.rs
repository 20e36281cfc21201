use gust::frontmatter::{front_matter, EntryStatus, Frontmatter};
use gust::listing::{Listing, ListingPost};
use gust::model::{CalendarDate, Timestamp};
use gust::paths::{file_stem, path_to_slug, tree_path};

#[test]
fn front_matter_stands_between_two_fences() {
    let text = b"---\nstatus: ongoing\n---\nbody\n";
    assert_eq!(front_matter(text), Some(b"\nstatus: ongoing\n".to_vec()));
}

#[test]
fn front_matter_may_follow_a_preamble() {
    assert_eq!(front_matter(b"intro---meta---rest---more"), Some(b"meta".to_vec()));
}

#[test]
fn front_matter_runs_to_the_end_without_a_second_fence() {
    assert_eq!(front_matter(b"---\ndate: x\n"), Some(b"\ndate: x\n".to_vec()));
    assert_eq!(front_matter(b"abc---"), Some(vec![]));
}

#[test]
fn text_without_a_fence_has_no_front_matter() {
    assert_eq!(front_matter(b""), None);
    assert_eq!(front_matter(b"--"), None);
    assert_eq!(front_matter(b"plain text - with -- hyphens"), None);
}

#[test]
fn fences_do_not_overlap() {
    assert_eq!(front_matter(b"----"), Some(b"-".to_vec()));
    assert_eq!(front_matter(b"------"), Some(vec![]));
    assert_eq!(front_matter(b"-----x"), Some(b"--x".to_vec()));
}

#[test]
fn front_matter_agrees_with_splitting_the_text() {
    let texts = [
        "",
        "---",
        "a---b",
        "a---b---c",
        "---\nstatus: ongoing\ndesc: \u{e9}t\u{e9}\n---\n# Title\n",
        "-------",
        "x--y---z----w",
        "no fence at all",
    ];
    for text in texts {
        let expected = text.split("---").nth(1).map(|part| part.as_bytes().to_vec());
        assert_eq!(front_matter(text.as_bytes()), expected, "for {:?}", text);
    }
}

#[test]
fn status_defaults_to_unspecified() {
    assert_eq!(EntryStatus::default(), EntryStatus::Unspecified);
}

fn matter(status: EntryStatus) -> Frontmatter {
    Frontmatter {
        status,
        desc: Some("about".to_string()),
        author: None,
        date: CalendarDate { year: 2021, month: 3, day: 14 },
    }
}

#[test]
fn unspecified_entries_are_not_listed() {
    assert!(matter(EntryStatus::Ongoing).is_listed());
    assert!(!matter(EntryStatus::Unspecified).is_listed());
}

#[test]
fn post_takes_over_the_front_matter() {
    let changed = Timestamp { seconds: 1_600_000_000, nanos: 5 };
    let post = matter(EntryStatus::Ongoing).into_post("hello".to_string(), changed);
    assert_eq!(
        post,
        ListingPost {
            slug: "hello".to_string(),
            desc: Some("about".to_string()),
            author: None,
            date: CalendarDate { year: 2021, month: 3, day: 14 },
            last_modified: changed,
        }
    );
    let listing = Listing { entries: vec![post] };
    assert_eq!(listing.entries.len(), 1);
}

#[test]
fn slug_is_the_file_name_without_its_extension() {
    assert_eq!(path_to_slug("entries/hello-world.md"), "hello-world");
    assert_eq!(path_to_slug("hello.md"), "hello");
    assert_eq!(path_to_slug("a/b/c/notes"), "notes");
    assert_eq!(path_to_slug("archive.tar.gz"), "archive.tar");
    assert_eq!(path_to_slug("dir/.hidden"), ".hidden");
    assert_eq!(path_to_slug("caf\u{e9}/na\u{ef}ve.md"), "na\u{ef}ve");
}

#[test]
fn stem_skips_separators_and_dot_components() {
    assert_eq!(file_stem("dir/name.md/"), Some("name".to_string()));
    assert_eq!(file_stem("dir/name.md/."), Some("name".to_string()));
    assert_eq!(file_stem("dir//name.md//./"), Some("name".to_string()));
    assert_eq!(file_stem("./name.md"), Some("name".to_string()));
    assert_eq!(file_stem("/abs/name.md"), Some("name".to_string()));
    assert_eq!(file_stem("name."), Some("name".to_string()));
    assert_eq!(file_stem("..."), Some("..".to_string()));
    assert_eq!(file_stem(".a.b"), Some(".a".to_string()));
}

#[test]
fn some_paths_name_no_file() {
    assert_eq!(file_stem(""), None);
    assert_eq!(file_stem("/"), None);
    assert_eq!(file_stem("."), None);
    assert_eq!(file_stem("./."), None);
    assert_eq!(file_stem(".."), None);
    assert_eq!(file_stem("a/.."), None);
    assert_eq!(file_stem("a/../"), None);
}

#[test]
fn stem_agrees_with_the_standard_library() {
    let paths = [
        "",
        "/",
        ".",
        "..",
        "a",
        "a.md",
        "a/b.md",
        "a/b.c.d",
        "a/.b",
        "a/.b.c",
        "a/b.",
        "a/b/",
        "a/b/.",
        "a/b/..",
        "a//b///",
        "./a",
        "./.",
        "...",
        "a/...",
        "/a.b/c",
        "entries/2021-03-14-pi.md",
        "\u{e9}/\u{fc}.md",
    ];
    for path in paths {
        let expected = std::path::Path::new(path)
            .file_stem()
            .map(|stem| stem.to_str().unwrap().to_string());
        if std::path::MAIN_SEPARATOR == '/' {
            assert_eq!(file_stem(path), expected, "for {:?}", path);
        }
    }
}

#[test]
fn tree_path_leads_from_the_root_to_the_file() {
    if std::path::MAIN_SEPARATOR == '/' {
        assert_eq!(
            tree_path("/repo/entries/a.md", "/repo"),
            Some("entries/a.md".to_string())
        );
        assert_eq!(tree_path("/repo/a.md", "/repo/"), Some("a.md".to_string()));
        assert_eq!(tree_path("/else/a.md", "/repo"), Some("../else/a.md".to_string()));
        assert_eq!(tree_path("a.md", "/repo"), None);
    }
}

/// A small deterministic generator of test inputs.
struct Lcg(u64);

impl Lcg {
    fn next(&mut self, bound: usize) -> usize {
        self.0 = self.0.wrapping_mul(6364136223846793005).wrapping_add(1442695040888963407);
        ((self.0 >> 33) as usize) % bound
    }

    fn text(&mut self, alphabet: &[char], max_len: usize) -> String {
        let len = self.next(max_len + 1);
        (0..len).map(|_| alphabet[self.next(alphabet.len())]).collect()
    }
}

#[test]
fn stem_agrees_with_the_standard_library_on_many_paths() {
    if std::path::MAIN_SEPARATOR != '/' {
        return;
    }
    let mut lcg = Lcg(7);
    let alphabet = ['/', '.', 'a', 'b', '\u{e9}'];
    for _ in 0..20_000 {
        let path = lcg.text(&alphabet, 9);
        let expected = std::path::Path::new(&path)
            .file_stem()
            .map(|stem| stem.to_str().unwrap().to_string());
        assert_eq!(file_stem(&path), expected, "for {:?}", path);
    }
}

#[test]
fn front_matter_agrees_with_splitting_on_many_texts() {
    let mut lcg = Lcg(11);
    let alphabet = ['-', '-', 'x', '\n', '\u{e9}'];
    for _ in 0..20_000 {
        let text = lcg.text(&alphabet, 14);
        let expected = text.split("---").nth(1).map(|part| part.as_bytes().to_vec());
        assert_eq!(front_matter(text.as_bytes()), expected, "for {:?}", text);
    }
}
