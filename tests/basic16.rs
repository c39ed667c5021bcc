// Copyright 2016 Gomez Guillaume
//
// Licensed under the Apache License, Version 2.0 (the "License");
// you may not use this file except in compliance with the License.
// You may obtain a copy of the License at
//
//   http://www.apache.org/licenses/LICENSE-2.0
//
// Unless required by applicable law or agreed to in writing, software
// distributed under the License is distributed on an "AS IS" BASIS,
// WITHOUT WARRANTIES OR CONDITIONS OF ANY KIND, either express or implied.
// See the License for the specific language governing permissions and
// limitations under the License.

use std::cell::RefCell;
use std::collections::BTreeMap;
use stripper_lib::regenerate::{parse_cmts, regenerate_comments, save_remainings};
use stripper_lib::strip::strip_comments;

/// A directory held in memory: file names and their texts.
struct TempDir {
    files: RefCell<BTreeMap<String, String>>,
}

/// A file of a `TempDir`, by name.
struct MemFile {
    name: String,
}

fn tempdir() -> Result<TempDir, String> {
    Ok(TempDir { files: RefCell::new(BTreeMap::new()) })
}

impl TempDir {
    fn path(&self) -> &TempDir {
        self
    }

    /// The text of file `name`.
    fn join(&self, name: &str) -> String {
        self.files.borrow().get(name).cloned().unwrap_or_default()
    }
}

fn gen_file(temp_dir: &TempDir, filename: &str, content: &str) -> MemFile {
    temp_dir
        .files
        .borrow_mut()
        .insert(filename.to_owned(), content.to_owned());
    MemFile { name: filename.to_owned() }
}

#[allow(dead_code)]
fn compare_files(expected_content: &str, buf: &str) {
    println!();
    for (l, r) in expected_content.lines().zip(buf.lines()) {
        assert_eq!(l, r, "compare_files0 failed");
        println!("{}", l);
    }
    assert_eq!(expected_content, buf, "compare_files1 failed");
}

/// Strips `test_file` of `dir`, appending its sidecar section to `out`.
#[allow(dead_code)]
fn strip_file(dir: &TempDir, test_file: &str, out: &mut MemFile, ignore_macros: bool) {
    let content = dir.join(test_file);
    match strip_comments(test_file, &content, ignore_macros) {
        Ok(Some(r)) => {
            let mut files = dir.files.borrow_mut();
            files.entry(out.name.clone()).or_default().push_str(&r.sidecar);
            files.insert(test_file.to_owned(), r.content);
        }
        Ok(None) => {}
        Err(e) => panic!("cannot strip {}: {:?}", test_file, e),
    }
}

/// Puts the records of sidecar `comment_file` back into the Rust files of
/// `dir`, then rewrites the sidecar with what is left, or removes it.
#[allow(dead_code)]
fn regenerate_dir(dir: &TempDir, comment_file: &str, ignore_macros: bool, ignore_doc_commented: bool) {
    let sidecar = dir.join(comment_file);
    let lines: Vec<String> = sidecar.lines().map(|l| l.to_owned()).collect();
    let mut infos = parse_cmts(&lines, ignore_macros).expect("the sidecar is readable");
    let names: Vec<String> = dir
        .files
        .borrow()
        .keys()
        .filter(|n| n.ends_with(".rs") && n.as_str() != comment_file)
        .cloned()
        .collect();
    for name in names {
        let content = dir.join(&name);
        if let Some(text) = regenerate_comments(&name, &content, &mut infos, ignore_macros, ignore_doc_commented) {
            dir.files.borrow_mut().insert(name, text);
        }
    }
    match save_remainings(&infos) {
        Some(text) => {
            dir.files.borrow_mut().insert(comment_file.to_owned(), text);
        }
        None => {
            dir.files.borrow_mut().remove(comment_file);
        }
    }
}


const SRC: &str = r#"impl Pixbuf {
    pub fn from_mut_slice<T: AsMut<[u8]>>() -> Pixbuf {
        let last_row_len = width * ((n_channels * bits_per_sample + 7) / 8);
    }

    // rustdoc-stripper-ignore-next
    /// Creates a `Pixbuf` from a type implementing `Read` (like `File`).
    ///
    /// ```no_run
    /// use std::fs::File;
    /// use gdk_pixbuf::Pixbuf;
    ///
    /// let f = File::open("some_file.png").expect("failed to open image");
    /// let pixbuf = Pixbuf::from_read(f).expect("failed to load image");
    /// ```
    pub fn from_read<R: Read + Send + 'static>(r: R) -> Result<Pixbuf, Error> {
        Pixbuf::from_stream(&gio::ReadInputStream::new(r), None::<&gio::Cancellable>)
    }
}"#;

#[allow(unused_must_use)]
#[test]
fn basic16_strip_ignore() {
    let test_file = "strip.rs";
    let comment_file = "strip.md";
    let temp_dir = tempdir().unwrap();
    gen_file(&temp_dir, test_file, SRC);
    {
        let mut f = gen_file(&temp_dir, comment_file, "");
        strip_file(temp_dir.path(), test_file, &mut f, true);
    }
    compare_files(SRC, &temp_dir.path().join(test_file));
}
