use elba::path::FilePath;
use std::path::{Path, PathBuf};

const TEXTS: [&str; 24] = [
    "", "/", ".", "..", "a", "a/", "/a", "//a//b/", "a/b/c", "./a", "././a/.", "/./a", "a/./b", "a/../b",
    "a/..", "../a", "a.b", ".a", ".a.b", "a.", "a.b.c/d.e.f", "/a.b/.c", "a/b.idr", "..a",
];

fn path(text: &str) -> FilePath {
    FilePath::parse(text.as_bytes())
}

fn std_path(path: &FilePath) -> PathBuf {
    PathBuf::from(String::from_utf8(path.to_bytes()).unwrap())
}

#[test]
fn reading_a_text_gives_what_std_reads() {
    for text in TEXTS {
        assert_eq!(std_path(&path(text)), Path::new(text), "{}", text);
        assert_eq!(path(text).to_bytes().starts_with(b"/"), Path::new(text).is_absolute());
    }
}

#[test]
fn text_is_normal() {
    assert_eq!(path("//a//./b/").to_bytes(), b"/a/b");
    assert_eq!(path("./a").to_bytes(), b"./a");
    assert_eq!(path("").to_bytes(), b"");
    assert_eq!(path("/").to_bytes(), b"/");
}

#[test]
fn reading_the_text_of_a_path_gives_the_path() {
    for text in TEXTS {
        let once = path(text);
        let twice = FilePath::parse(&once.to_bytes());
        assert_eq!(once.to_bytes(), twice.to_bytes(), "{}", text);
    }
}

#[test]
fn joining_is_that_of_std() {
    for left in TEXTS {
        for right in TEXTS {
            let joined = path(left).join(&path(right));
            assert_eq!(std_path(&joined), Path::new(left).join(right), "{} {}", left, right);
        }
    }
}

#[test]
fn child_is_a_join() {
    assert_eq!(path("/a").child("b").to_bytes(), b"/a/b");
    assert_eq!(path("").child("b").to_bytes(), b"b");
}

#[test]
fn parents_are_those_of_std() {
    for text in TEXTS {
        let parent = path(text).parent().map(|parent| std_path(&parent));
        assert_eq!(parent.as_deref(), Path::new(text).parent(), "{}", text);
    }
}

#[test]
fn file_names_are_those_of_std() {
    for text in TEXTS {
        let name = path(text).file_name().map(|name| String::from_utf8(name).unwrap());
        let expected = Path::new(text).file_name().map(|name| name.to_str().unwrap().to_string());
        assert_eq!(name, expected, "{}", text);
    }
}

#[test]
fn extensions_are_those_of_std() {
    for text in TEXTS {
        let changed = path(text).with_extension("lock");
        let mut expected = PathBuf::from(text);
        expected.set_extension("lock");
        assert_eq!(std_path(&changed), expected, "{}", text);
    }
    assert_eq!(path("a/b.idr").with_extension("ibc").to_bytes(), b"a/b.ibc");
    assert_eq!(path("a/b").with_extension("ibc").to_bytes(), b"a/b.ibc");
    assert_eq!(path(".a").with_extension("ibc").to_bytes(), b".a.ibc");
    assert_eq!(path("..").with_extension("ibc").to_bytes(), b"..");
    assert_eq!(path("..a").with_extension("ibc").to_bytes(), b"..ibc");
}

#[test]
fn prefixes_are_those_of_std() {
    for text in TEXTS {
        for base in TEXTS {
            let rest = path(text).strip_prefix(&path(base)).map(|rest| std_path(&rest));
            let expected = Path::new(text).strip_prefix(base).ok();
            assert_eq!(rest.as_deref(), expected, "{} {}", text, base);
        }
    }
}

#[test]
fn paths_with_the_same_text_are_the_same_to_std() {
    for left in TEXTS {
        for right in TEXTS {
            let same = path(left).to_bytes() == path(right).to_bytes();
            assert_eq!(same, Path::new(left) == Path::new(right));
        }
    }
}

#[test]
fn bytes_need_not_be_text() {
    let odd = FilePath::parse(&[255, 47, 254, 46, 253]);
    assert_eq!(odd.to_bytes(), vec![255, 47, 254, 46, 253]);
    assert_eq!(odd.with_extension("lock").to_bytes(), vec![255, 47, 254, 46, 108, 111, 99, 107]);
    assert_eq!(odd.clone().file_name(), Some(vec![254, 46, 253]));
}
