//! The inbox: names, requests, transfers. A small disk in memory stands for
//! the folders of the host.

use std::collections::{BTreeMap, BTreeSet};
use streamaid::files::{
    admitted, begin_reply, blob_chunk, blob_end, blob_opening, blob_replies, blob_whole,
    chunk_reply, decode_b64, deliverable, delete_reply, encode_b64, handle_message, import_check, is_inside,
    join_under, list_at_json, list_place, listing, mkdir_check, mkdir_reply, ok_json_at,
    part_name, put_check, put_reply, readable, removable, sanitize_name, sanitize_rel, BlobSender,
    FileEntry, FileRequest, Folder, Found, Inbox, Listing, RawEntry, Want, MAX_CHUNK, MAX_FILE,
};
use streamaid::json::Json;
use streamaid::panel::{
    copied_json, copy_request, delete_request, deleted_json, download_as, made_json, mkdir_request,
    query_names, rename_check, rename_request, renamed_json, status_of, Download, PanelOp,
};
use streamaid::zip::{crc32, zip_bytes, ZipFile};
use streamaid::names::{normalize_root, numbered_name, sanitize_id, unique_dest, Dest};
use streamaid::transfer::finished;

fn j(text: &str) -> Json {
    Json::parse(text).unwrap()
}

struct Disk {
    files: BTreeMap<String, Vec<u8>>,
    dirs: BTreeSet<String>,
    inbox: Inbox,
}

fn top(folder: Folder) -> &'static str {
    match folder {
        Folder::Inbox => "inbox",
        Folder::Home => "home",
        Folder::Desktop => "home/Desktop",
        Folder::Documents => "home/Documents",
        Folder::Downloads => "home/Downloads",
    }
}

impl Disk {
    fn new() -> Disk {
        let mut dirs = BTreeSet::new();
        dirs.insert("inbox".to_string());
        dirs.insert("home".to_string());
        Disk { files: BTreeMap::new(), dirs, inbox: Inbox::new() }
    }

    fn path(&self, root: &str, rel: &str, name: &str) -> Result<String, String> {
        let spot = join_under(root, rel, name, true, true)?;
        let mut p = top(spot.folder).to_string();
        for part in [spot.rel.as_str(), spot.name.as_str()] {
            if !part.is_empty() {
                p = format!("{p}/{part}");
            }
        }
        Ok(p)
    }

    fn list_at(&self, root: &str, rel: &str) -> Result<Listing, String> {
        let (root, path) = list_place(root, rel)?;
        let dir = self.path(&root, &path, "")?;
        let mut raw = Vec::new();
        for (p, data) in &self.files {
            if let Some((d, n)) = p.rsplit_once('/') {
                if d == dir {
                    raw.push(RawEntry {
                        name: n.to_string(),
                        dir: false,
                        file: true,
                        size: Some(data.len() as u64),
                    });
                }
            }
        }
        for p in &self.dirs {
            if let Some((d, n)) = p.rsplit_once('/') {
                if d == dir {
                    raw.push(RawEntry {
                        name: n.to_string(),
                        dir: true,
                        file: false,
                        size: Some(64),
                    });
                }
            }
        }
        Ok(Listing { root, path, files: listing(&raw) })
    }

    fn list(&self) -> Vec<FileEntry> {
        self.list_at("inbox", "").unwrap().files
    }

    fn put_at(&mut self, root: &str, rel: &str, name: &str, b: &[u8]) -> Result<FileEntry, String> {
        let name = put_check(name, b.len() as u64)?;
        let p = self.path(root, rel, &name)?;
        self.files.insert(p, b.to_vec());
        Ok(FileEntry::file(name, b.len() as u64))
    }

    fn put(&mut self, name: &str, b: &[u8]) -> Result<FileEntry, String> {
        self.put_at("inbox", "", name, b)
    }

    fn read_at(&self, root: &str, rel: &str, name: &str) -> Result<Vec<u8>, String> {
        let p = self.path(root, rel, name)?;
        let data = self.files.get(&p);
        readable(self.dirs.contains(&p), data.map(|d| d.len() as u64))?;
        Ok(data.unwrap().clone())
    }

    fn get(&self, name: &str) -> Result<Vec<u8>, String> {
        self.read_at("inbox", "", name)
    }

    fn remove_at(&mut self, root: &str, rel: &str, name: &str) -> Result<FileEntry, String> {
        let p = self.path(root, rel, name)?;
        let len = self.files.get(&p).map(|d| d.len() as u64);
        let is_dir = self.dirs.contains(&p);
        let e = removable(name.to_string(), is_dir, if is_dir { Some(64) } else { len })?;
        if e.dir {
            let below = format!("{p}/");
            self.dirs.retain(|d| *d != p && !d.starts_with(&below));
            self.files.retain(|f, _| !f.starts_with(&below));
            return Ok(e);
        }
        self.files.remove(&p);
        self.inbox.forget(root, rel, &e.name);
        Ok(e)
    }

    fn holds(&self, p: &str) -> bool {
        self.dirs.contains(p) || self.files.contains_key(p)
    }

    fn manage(&mut self, op: PanelOp) -> Result<String, String> {
        match op {
            PanelOp::Mkdir { root, path, name } => {
                self.mkdir_at(&root, &path, &name).map(|e| made_json(&e.name))
            }
            PanelOp::Rename { root, path, name, to } => {
                let from = self.path(&root, &path, &name)?;
                let dest = self.path(&root, &path, &to)?;
                let n = rename_check(&to, self.holds(&from), self.holds(&dest))?;
                let data = self.files.remove(&from).unwrap();
                self.files.insert(dest, data);
                Ok(renamed_json(&n))
            }
            PanelOp::Copy { root, path, names, to_root, to_path } => {
                let mut done = Vec::new();
                for name in names {
                    let data = self.read_at(&root, &path, &name)?;
                    let mut taken = Vec::new();
                    let n = loop {
                        match unique_dest(&name, &taken).unwrap() {
                            Dest::Free(n) => break n,
                            Dest::Ask(n) => {
                                taken.push(self.holds(&self.path(&to_root, &to_path, &n)?))
                            }
                        }
                    };
                    self.put_at(&to_root, &to_path, &n, &data)?;
                    done.push(n);
                }
                Ok(copied_json(&done))
            }
            PanelOp::Delete { root, path, names } => {
                let mut gone = Vec::new();
                for name in names {
                    gone.push(self.remove_at(&root, &path, &name)?);
                }
                Ok(deleted_json(&gone))
            }
        }
    }

    fn remove(&mut self, name: &str) -> Result<FileEntry, String> {
        self.remove_at("inbox", "", name)
    }

    fn mkdir_at(&mut self, root: &str, rel: &str, name: &str) -> Result<FileEntry, String> {
        let p = self.path(root, rel, name)?;
        mkdir_check(self.dirs.contains(&p) || self.files.contains_key(&p))?;
        self.dirs.insert(p);
        Ok(FileEntry { name: name.to_string(), size: 0, dir: true })
    }

    fn part(&self, root: &str, rel: &str, name: &str) -> Result<String, String> {
        self.path(root, rel, &part_name(name))
    }

    fn begin_at(
        &mut self,
        id: &str,
        name: &str,
        size: u64,
        root: &str,
        rel: &str,
    ) -> Result<u64, String> {
        let part = self.part(root, rel, name);
        let have = match &part {
            Ok(p) => self.files.get(p).map(|d| d.len() as u64),
            Err(_) => None,
        };
        let (r, drop_part) = self.inbox.begin_at(id, name, size, root, rel, have);
        if drop_part {
            self.files.remove(&part.unwrap());
        }
        r
    }

    fn begin(&mut self, id: &str, name: &str, size: u64) -> Result<u64, String> {
        self.begin_at(id, name, size, "inbox", "")
    }

    fn chunk(&mut self, id: &str, b: &[u8]) -> Result<(), String> {
        let t = self.inbox.chunk_check(id, b.len())?;
        let p = self.part(&t.root, &t.rel, &t.name)?;
        self.files.entry(p).or_default().extend_from_slice(b);
        self.inbox.chunk(id, b.len())
    }

    fn end(&mut self, id: &str) -> Result<(FileEntry, String, String), String> {
        let t = self.inbox.end(id)?;
        let p = self.part(&t.root, &t.rel, &t.name)?;
        let have = self.files.get(&p).map_or(0, |d| d.len() as u64);
        let e = finished(&t, have)?;
        let data = self.files.remove(&p).unwrap();
        let to = self.path(&t.root, &t.rel, &t.name)?;
        self.files.insert(to, data);
        Ok((e, t.root.clone(), t.rel.clone()))
    }

    fn emit_blob(&self, name: &str) -> Result<Vec<String>, String> {
        let data = self.get(name)?;
        let Some(opening) = blob_opening(name, data.len() as u64) else {
            return Ok(vec![blob_whole(name, &data)]);
        };
        let mut out = vec![opening];
        for piece in data.chunks(MAX_CHUNK) {
            out.push(blob_chunk(name, piece));
        }
        out.push(blob_end(name));
        Ok(out)
    }

    fn handle(&mut self, msg: &str) -> Vec<String> {
        match handle_message(&j(msg)) {
            FileRequest::List { root, rel } => vec![list_at_json(&self.list_at(&root, &rel))],
            FileRequest::Put { root, rel, name, data } => {
                let r = self.put_at(&root, &rel, &name, &data);
                vec![put_reply(&root, &rel, &r)]
            }
            FileRequest::Begin { id, name, size, root, rel } => {
                let r = self.begin_at(&id, &name, size, &root, &rel);
                vec![begin_reply(&id, size, &r)]
            }
            FileRequest::Chunk { id, data } => chunk_reply(&self.chunk(&id, &data)),
            FileRequest::End { id } => match self.end(&id) {
                Ok((e, root, rel)) => vec![ok_json_at(&e, &root, &rel)],
                Err(e) => vec![put_reply("", "", &Err(e))],
            },
            FileRequest::Get { root, rel, name } => match self.read_at(&root, &rel, &name) {
                Ok(data) => blob_replies(&name, &data),
                Err(e) => vec![put_reply("", "", &Err(e))],
            },
            FileRequest::Mkdir { root, rel, name } => {
                let r = self.mkdir_at(&root, &rel, &name);
                mkdir_reply(&root, &rel, &r, &self.list_at(&root, &rel))
            }
            FileRequest::Delete { root, rel, name } => {
                let r = self.remove_at(&root, &rel, &name);
                delete_reply(&root, &rel, &r, &self.list_at(&root, &rel))
            }
            FileRequest::Refuse { error } => vec![put_reply("", "", &Err(error))],
        }
    }
}

#[test]
fn sanitize_rejects_traversal_and_hidden() {
    assert_eq!(sanitize_name("notes.txt").as_deref(), Some("notes.txt"));
    assert_eq!(sanitize_name("my photo.png").as_deref(), Some("my photo.png"));
    assert!(sanitize_name("../etc/passwd").is_none());
    assert!(sanitize_name("a/b").is_none());
    assert!(sanitize_name("a\\b").is_none());
    assert!(sanitize_name(".hidden").is_none());
    assert!(sanitize_name("").is_none());
    assert!(sanitize_name("ok\0no").is_none());
}

#[test]
fn put_list_get_roundtrip() {
    let mut inbox = Disk::new();
    let ent = inbox.put("hello.txt", b"hello world").unwrap();
    assert_eq!(ent.name, "hello.txt");
    assert_eq!(ent.size, 11);
    let list = inbox.list();
    assert_eq!(list.len(), 1);
    assert_eq!(list[0].name, "hello.txt");
    assert_eq!(inbox.get("hello.txt").unwrap(), b"hello world");
    assert!(inbox.get("../hello.txt").is_err());
    assert!(inbox.put("../x", b"no").is_err());
    let gone = inbox.remove("hello.txt").unwrap();
    assert_eq!(gone.name, "hello.txt");
    assert!(inbox.list().is_empty());
    assert!(inbox.remove("hello.txt").is_err());
    assert!(inbox.remove("../hello.txt").is_err());
    let replies = inbox.handle(r#"{"action":"delete","name":"nope.txt"}"#);
    assert!(replies.iter().any(|m| m.contains("file not found")));
    inbox.put("bye.txt", b"x").unwrap();
    let replies = inbox.handle(r#"{"action":"delete","name":"bye.txt"}"#);
    assert!(replies.iter().any(|m| m.contains("\"deleted\"")));
    assert!(inbox.list().is_empty());
}

#[test]
fn browse_desktop_lists_dirs_and_rejects_escape() {
    let mut inbox = Disk::new();
    inbox.dirs.insert("home/Desktop".to_string());
    inbox.dirs.insert("home/Desktop/Work".to_string());
    inbox.files.insert("home/Desktop/shot.png".to_string(), b"png".to_vec());
    inbox.files.insert("home/Desktop/Work/a.txt".to_string(), b"hi".to_vec());
    inbox.put("in.txt", b"x").unwrap();
    let l = inbox.list_at("desktop", "").unwrap();
    assert_eq!(l.root, "desktop");
    assert_eq!(l.path, "");
    assert!(l.files.iter().any(|f| f.name == "shot.png" && !f.dir));
    assert!(l.files.iter().any(|f| f.name == "Work" && f.dir));
    let files = inbox.list_at("desktop", "Work").unwrap().files;
    assert_eq!(files[0].name, "a.txt");
    assert_eq!(inbox.read_at("desktop", "Work", "a.txt").unwrap(), b"hi");
    assert!(inbox.list_at("desktop", "../inbox").is_err());
    assert!(inbox.path("desktop", "", "../in.txt").is_err());
    assert!(inbox.list_at("nope", "").is_err());
    assert_eq!(sanitize_rel("Work/a").as_deref(), Some("Work/a"));
    assert!(sanitize_rel("..").is_none());
    inbox.remove_at("desktop", "Work", "a.txt").unwrap();
    assert!(inbox.list_at("desktop", "Work").unwrap().files.is_empty());
    let listed = inbox.handle(r#"{"action":"list","root":"desktop"}"#);
    assert!(listed[0].contains("shot.png"));
    assert!(listed[0].contains("\"root\":\"desktop\""));
    let home_files = inbox.list_at("home", "").unwrap().files;
    assert!(home_files.iter().any(|f| f.name == "Desktop" && f.dir));
    assert!(inbox.list_at("home", "../").is_err());
    inbox.put_at("home", "", "from-home.txt", b"ok").unwrap();
    assert_eq!(inbox.files["home/from-home.txt"], b"ok");
    inbox.put_at("desktop", "Work", "drop.txt", b"zz").unwrap();
    assert_eq!(inbox.files["home/Desktop/Work/drop.txt"], b"zz");
    assert!(inbox.get("drop.txt").is_err());
    assert_eq!(inbox.begin_at("d1", "c.bin", 4, "desktop", "Work").unwrap(), 0);
    inbox.chunk("d1", b"abcd").unwrap();
    let (ent, root, rel) = inbox.end("d1").unwrap();
    assert_eq!(ent.name, "c.bin");
    assert_eq!(root, "desktop");
    assert_eq!(rel, "Work");
    assert_eq!(inbox.files["home/Desktop/Work/c.bin"], b"abcd");
    let put = inbox.handle(&format!(
        r#"{{"action":"put","root":"desktop","path":"Work","name":"via.json","data":"{}"}}"#,
        encode_b64(b"ok")
    ));
    assert!(put[0].contains("\"root\":\"desktop\""));
    assert!(put[0].contains("via.json"));
    let dir = inbox.mkdir_at("desktop", "Work", "Sub").unwrap();
    assert!(dir.dir);
    assert!(inbox.dirs.contains("home/Desktop/Work/Sub"));
    assert!(inbox.mkdir_at("desktop", "Work", "Sub").is_err());
    assert!(inbox.mkdir_at("desktop", "Work", "../nope").is_err());
    let mk = inbox.handle(r#"{"action":"mkdir","root":"home","path":"","name":"NewFolder"}"#);
    assert!(mk.iter().any(|m| m.contains("\"mkdir\"") && m.contains("NewFolder")));
    assert!(inbox.dirs.contains("home/NewFolder"));
}

#[test]
fn import_path_copies_host_file_into_inbox() {
    let mut inbox = Disk::new();
    let ent = import_check(true, Some("note.txt"), Ok(11)).unwrap();
    assert_eq!(ent.name, "note.txt");
    assert_eq!(ent.size, 11);
    inbox.put(&ent.name, b"from-finder").unwrap();
    assert_eq!(inbox.get("note.txt").unwrap(), b"from-finder");
    assert!(import_check(false, Some("dir"), Ok(0)).is_err());
    assert!(import_check(true, None, Ok(0)).is_err());
    assert!(import_check(true, Some("big"), Ok(MAX_FILE + 1)).is_err());
    assert!(import_check(true, Some("x"), Err("gone".to_string())).is_err());
    assert!(list_at_json(&inbox.list_at("inbox", "")).contains("note.txt"));
}

#[test]
fn copy_into_dir_uniquifies_and_skips_temp_desktop() {
    let mut taken: BTreeSet<String> = BTreeSet::new();
    let pick = |taken: &BTreeSet<String>| {
        let mut exist: Vec<bool> = Vec::new();
        loop {
            match unique_dest("a.txt", &exist).unwrap() {
                Dest::Free(n) => return n,
                Dest::Ask(n) => exist.push(taken.contains(&n)),
            }
        }
    };
    let p1 = pick(&taken);
    assert_eq!(p1, "a.txt");
    taken.insert(p1);
    let p2 = pick(&taken);
    assert_eq!(p2, "a-1.txt");
    assert!(
        !deliverable(true, true, true),
        "temp-dir inbox files must not land on the real Desktop"
    );
    assert!(deliverable(true, false, true));
    assert!(!deliverable(true, false, false));
    assert_eq!(numbered_name("a.txt", 2), "a-2.txt");
    assert!(unique_dest("../a", &Vec::new()).is_none());
    taken.insert(p2);
    for i in 2..150 {
        taken.insert(numbered_name("a.txt", i));
    }
    assert_eq!(pick(&taken), "a-150.txt");
    taken.remove("a-40.txt");
    assert_eq!(pick(&taken), "a-40.txt");
}

#[test]
fn chunked_put_assembles() {
    let mut inbox = Disk::new();
    inbox.begin("t1", "chunk.bin", 8).unwrap();
    inbox.chunk("t1", b"abcd").unwrap();
    inbox.chunk("t1", b"efgh").unwrap();
    let (ent, root, rel) = inbox.end("t1").unwrap();
    assert_eq!(ent.size, 8);
    assert_eq!(root, "inbox");
    assert_eq!(rel, "");
    assert_eq!(inbox.get("chunk.bin").unwrap(), b"abcdefgh");
}

#[test]
fn resume_from_part_file_after_incomplete_end() {
    let mut inbox = Disk::new();
    assert_eq!(inbox.begin("a", "r.bin", 8).unwrap(), 0);
    inbox.chunk("a", b"AAAA").unwrap();
    assert!(inbox.end("a").is_err());
    assert!(
        inbox.list().is_empty(),
        "incomplete transfer must not appear as a finished file"
    );
    assert_eq!(inbox.begin("b", "r.bin", 8).unwrap(), 4);
    inbox.chunk("b", b"BBBB").unwrap();
    let (ent, _, _) = inbox.end("b").unwrap();
    assert_eq!(ent.size, 8);
    assert_eq!(inbox.get("r.bin").unwrap(), b"AAAABBBB");
}

#[test]
fn handle_begin_chunk_end_json_larger_than_one_chunk() {
    let mut inbox = Disk::new();
    let data = vec![7u8; MAX_CHUNK + 100];
    let begin = inbox.handle(&format!(
        r#"{{"action":"begin","id":"xfer1","name":"big.bin","size":{}}}"#,
        data.len()
    ));
    assert!(begin[0].contains("accept"), "{}", begin[0]);
    assert!(begin[0].contains("\"offset\":0"), "{}", begin[0]);
    for part in data.chunks(MAX_CHUNK) {
        let r = inbox.handle(&format!(
            r#"{{"action":"chunk","id":"xfer1","data":"{}"}}"#,
            encode_b64(part)
        ));
        assert!(r.is_empty() || r.iter().all(|m| !m.contains("error")), "{r:?}");
    }
    let end = inbox.handle(r#"{"action":"end","id":"xfer1"}"#);
    assert!(end[0].contains("\"ok\""), "{}", end[0]);
    assert_eq!(inbox.get("big.bin").unwrap(), data);
}

#[test]
fn handle_put_list_get_json() {
    let mut inbox = Disk::new();
    let put = inbox.handle(&format!(
        r#"{{"action":"put","name":"a.txt","data":"{}"}}"#,
        encode_b64(b"xyz")
    ));
    assert!(put[0].contains("\"ok\""));
    let list = inbox.handle(r#"{"action":"list"}"#);
    assert!(list[0].contains("a.txt"));
    let got = inbox.handle(r#"{"action":"get","name":"a.txt"}"#);
    assert!(got[0].contains("blob"));
    assert!(got[0].contains(&encode_b64(b"xyz")));
}

#[test]
fn oversized_begin_rejected_without_allocating() {
    let mut inbox = Disk::new();
    assert!(inbox.begin("t", "big.bin", MAX_FILE + 1).is_err());
    assert!(inbox.begin("t", "zero.bin", 0).is_err());
}

#[test]
fn chunk_appends_to_part_file() {
    let mut inbox = Disk::new();
    assert_eq!(inbox.begin("t1", "a.bin", 8).unwrap(), 0);
    inbox.chunk("t1", b"abcd").unwrap();
    assert_eq!(inbox.files["inbox/a.bin.part"].len(), 4);
    inbox.chunk("t1", b"efgh").unwrap();
    assert_eq!(inbox.files["inbox/a.bin.part"].len(), 8);
    let (ent, _, _) = inbox.end("t1").unwrap();
    assert_eq!(ent.size, 8);
    assert!(!inbox.files.contains_key("inbox/a.bin.part"));
    assert_eq!(inbox.get("a.bin").unwrap(), b"abcdefgh");
}

#[test]
fn blob_replies_chunk_large_payloads() {
    let data = vec![7u8; MAX_CHUNK + 10];
    let msgs = blob_replies("n.bin", &data);
    assert!(msgs[0].contains("blob-begin"));
    assert!(msgs.iter().any(|m| m.contains("blob-chunk")));
    assert!(msgs.last().unwrap().contains("blob-end"));
}

#[test]
fn emit_blob_streams_from_disk_matching_blob_replies() {
    let mut inbox = Disk::new();
    inbox.put("tiny.txt", b"hi").unwrap();
    let one = inbox.emit_blob("tiny.txt").unwrap();
    assert_eq!(one, blob_replies("tiny.txt", b"hi"));

    let data = vec![3u8; MAX_CHUNK + 50];
    inbox.put("s.bin", &data).unwrap();
    let msgs = inbox.emit_blob("s.bin").unwrap();
    assert_eq!(msgs, blob_replies("s.bin", &data));
    assert!(msgs[0].contains("blob-begin"));
    assert!(msgs.last().unwrap().contains("blob-end"));
}

#[test]
fn a_transfer_refuses_what_it_cannot_take() {
    let mut inbox = Disk::new();
    assert_eq!(inbox.chunk("nobody", b"x").unwrap_err(), "unknown transfer");
    assert_eq!(inbox.begin("../", "a.bin", 4).unwrap_err(), "invalid transfer id");
    inbox.begin("t", "a.bin", 2).unwrap();
    assert!(inbox.chunk("t", b"").is_err());
    assert!(inbox.chunk("t", b"xyz").is_err());
    for i in 0..3 {
        inbox.begin(&format!("n{i}"), &format!("f{i}.bin"), 9).unwrap();
    }
    assert_eq!(inbox.begin("more", "g.bin", 9).unwrap_err(), "too many transfers");
    assert_eq!(inbox.inbox.len(), 4);
    assert!(sanitize_id("abc-1").is_some());
}

#[test]
fn a_path_stays_inside_its_folder() {
    let root = vec!["home".to_string(), "me".to_string()];
    let inside = vec!["home".to_string(), "me".to_string(), "x".to_string()];
    let outside = vec!["home".to_string(), "you".to_string()];
    assert!(is_inside(&root, &inside));
    assert!(!is_inside(&root, &outside));
    let found = |steps: Vec<String>| Found { exists: true, parent: Some(true), steps: Some(steps) };
    assert!(admitted(&root, &found(inside)).is_ok());
    assert!(admitted(&root, &found(outside)).is_err());
    assert_eq!(normalize_root("DESKTOP"), Some("desktop"));
    assert!(normalize_root("etc").is_none());
}

#[test]
fn a_request_that_is_none_is_refused() {
    let mut inbox = Disk::new();
    let r = inbox.handle(r#"{"action":"dance"}"#);
    assert!(r[0].contains("error"));
    let r = inbox.handle(r#"{"action":"put","name":"a","data":"@@@"}"#);
    assert!(r[0].contains("error"));
}

#[test]
fn base64_reads_back_with_white_space_around() {
    let text = encode_b64(b"hello");
    assert_eq!(text, "aGVsbG8=");
    assert_eq!(decode_b64(&text).unwrap(), b"hello");
    assert_eq!(decode_b64(&format!(" \n{text}\t\r\n")).unwrap(), b"hello");
    assert_eq!(decode_b64("a b").unwrap_err(), "invalid base64");
}

#[test]
fn a_clean_path_stays_what_it_is() {
    for rel in ["", " a\\b /./c.txt/ ", "a//b", "x/y/z"] {
        let p = sanitize_rel(rel).unwrap();
        assert_eq!(sanitize_rel(&p).unwrap(), p);
        assert!(p.split('/').count() <= 8);
    }
    assert_eq!(sanitize_rel(" a\\b /./c.txt/ ").unwrap(), "a/b/c.txt");
    assert!(sanitize_rel("a/../b").is_none());
    assert!(sanitize_rel("a\\..").is_none());
    assert!(sanitize_rel("1/2/3/4/5/6/7/8/9").is_none());
}

#[test]
fn a_broken_transfer_goes_on_where_it_stopped() {
    let mut inbox = Inbox::new();
    let begin = |inbox: &mut Inbox, part: Option<u64>| {
        inbox.begin_at("t", "a.bin", 10, "inbox", "", part)
    };
    assert_eq!(begin(&mut inbox, None), (Ok(0), false));
    inbox.chunk("t", 4).unwrap();
    let t = inbox.end("t").unwrap();
    assert_eq!(finished(&t, 4).unwrap_err(), "incomplete file");
    assert_eq!(begin(&mut inbox, Some(4)), (Ok(4), false));
    inbox.chunk("t", 3).unwrap();
    inbox.chunk("t", 3).unwrap();
    assert_eq!(inbox.chunk("t", 1).unwrap_err(), "file too large");
    let t = inbox.end("t").unwrap();
    let e = finished(&t, 10).unwrap();
    assert_eq!((e.name.as_str(), e.size, e.dir), ("a.bin", 10, false));
    assert_eq!((t.root.as_str(), t.rel.as_str()), ("inbox", ""));
    assert_eq!(begin(&mut inbox, Some(10)), (Ok(0), true));
}

#[test]
fn a_file_is_sent_while_it_is_read() {
    let send = |bytes: &[u8], step: usize| {
        let (mut b, first) = BlobSender::open("f.bin", bytes.len() as u64);
        let mut out: Vec<String> = first.into_iter().collect();
        if b.want() == Want::All {
            out.extend(b.read(bytes));
        }
        let mut reads = bytes.chunks(step);
        while b.want() == Want::Piece {
            out.extend(b.read(reads.next().unwrap_or(&[])));
        }
        assert!(b.read(b"more").is_none());
        out
    };
    let small = vec![7u8; MAX_CHUNK];
    assert_eq!(send(&small, MAX_CHUNK), blob_replies("f.bin", &small));
    let large = vec![9u8; 2 * MAX_CHUNK + 5];
    let out = send(&large, MAX_CHUNK);
    assert_eq!(out.len(), 5);
    assert_eq!(out, blob_replies("f.bin", &large));
    let short = send(&large, MAX_CHUNK - 1);
    assert_eq!(short.len(), 5);
    assert_eq!(short[1], blob_chunk("f.bin", &large[..MAX_CHUNK - 1]));
}

#[test]
fn files_put_list_download_and_reject_traversal() {
    let mut d = Disk::new();
    d.put("hello.txt", b"hello-inbox").unwrap();
    assert!(put_check("../evil.txt", 2).is_err());
    assert!(d.list().iter().any(|f| f.name == "hello.txt"));
    assert_eq!(d.get("hello.txt").unwrap(), b"hello-inbox");
    let big = vec![9u8; MAX_CHUNK + 32];
    d.put("big.bin", &big).unwrap();
    assert_eq!(d.get("big.bin").unwrap(), big);

    let made = d.manage(mkdir_request(br#"{"name": "SubDir"}"#).unwrap()).unwrap();
    let made = j(&made);
    assert_eq!(made.truth_at("mkdir"), Some(true));
    assert_eq!(made.text_at("name"), Some("SubDir"));
    assert_eq!(made.truth_at("dir"), Some(true));
    let again = d.manage(mkdir_request(br#"{"name": "SubDir"}"#).unwrap()).unwrap_err();
    assert_eq!(status_of(&again), 409);

    let gone = j(&d.manage(delete_request("name=SubDir").unwrap()).unwrap());
    assert_eq!(gone.truth_at("deleted"), Some(true));
    assert_eq!(gone.truth_at("dir"), Some(true));
    d.mkdir_at("inbox", "", "Nested").unwrap();
    d.put_at("inbox", "Nested", "x.txt", b"z").unwrap();
    d.manage(delete_request("name=Nested").unwrap()).unwrap();
    assert!(!d.holds("inbox/Nested"));
    assert!(!d.holds("inbox/Nested/x.txt"));

    d.put("rename-me.txt", b"hi").unwrap();
    let op = rename_request(br#"{"name": "rename-me.txt", "to": "renamed.txt"}"#).unwrap();
    let renamed = j(&d.manage(op).unwrap());
    assert_eq!(renamed.truth_at("renamed"), Some(true));
    assert_eq!(renamed.text_at("name"), Some("renamed.txt"));
    let op = rename_request(br#"{"name": "renamed.txt", "to": "big.bin"}"#).unwrap();
    assert_eq!(status_of(&d.manage(op).unwrap_err()), 409);

    let one = query_names("name=Pack").unwrap();
    match download_as(&one, true) {
        Download::Archive { name } => assert_eq!(name, "Pack.zip"),
        other => panic!("{other:?}"),
    }
    let several = query_names("name=sel-a.txt&name=sel-b.txt").unwrap();
    match download_as(&several, false) {
        Download::Archive { name } => assert_eq!(name, "files.zip"),
        other => panic!("{other:?}"),
    }
    match download_as(&query_names("name=hello.txt").unwrap(), false) {
        Download::Plain { name } => assert_eq!(name, "hello.txt"),
        other => panic!("{other:?}"),
    }
    d.mkdir_at("inbox", "", "Pack").unwrap();
    d.put("sel-a.txt", b"AAA").unwrap();
    d.put("sel-b.txt", b"BBB").unwrap();
    let op = copy_request(
        br#"{"names": ["sel-a.txt", "sel-b.txt"], "root": "inbox", "toRoot": "inbox", "toPath": "Pack"}"#,
    );
    d.manage(op.unwrap()).unwrap();
    assert!(d.holds("inbox/Pack/sel-a.txt"));
    d.manage(delete_request("name=sel-a.txt&name=sel-b.txt").unwrap()).unwrap();
    assert!(d.get("sel-a.txt").is_err());
    let op = copy_request(br#"{"name": "hello.txt", "root": "inbox", "toRoot": "inbox"}"#);
    let copied = j(&d.manage(op.unwrap()).unwrap());
    assert_eq!(copied.truth_at("copied"), Some(true));
    assert_eq!(copied.text_at("name"), Some("hello-1.txt"));

    let deleted = j(&d.manage(delete_request("name=hello.txt").unwrap()).unwrap());
    assert_eq!(deleted.truth_at("deleted"), Some(true));
    assert_eq!(deleted.text_at("name"), Some("hello.txt"));
    let gone = d.manage(delete_request("name=hello.txt").unwrap()).unwrap_err();
    assert_eq!(status_of(&gone), 404);
    let out = d.manage(delete_request("name=../evil.txt").unwrap()).unwrap_err();
    assert_eq!(status_of(&out), 400);
}

#[test]
fn a_panel_request_without_a_name_is_refused() {
    for body in [&b"{}"[..], &br#"{"name": ""}"#[..], &br#"{"names": [1, ""]}"#[..]] {
        for e in [
            mkdir_request(body).unwrap_err(),
            rename_request(body).unwrap_err(),
            copy_request(body).unwrap_err(),
        ] {
            assert_eq!((e.status, e.reason), (400, "missing name"));
        }
    }
    assert_eq!(mkdir_request(b"x").unwrap_err().reason, "invalid JSON body");
    assert_eq!(copy_request(b"[]").unwrap_err().reason, "expected JSON object");
    assert_eq!(delete_request("root=home").unwrap_err().status, 400);
    assert_eq!(rename_check("a", false, false).unwrap_err(), "file not found");
    assert_eq!(rename_check(".a", true, false).unwrap_err(), "invalid file name");
    match delete_request("name=a&root=home&path=x&name=b").unwrap() {
        PanelOp::Delete { root, path, names } => {
            assert_eq!((root.as_str(), path.as_str()), ("home", "x"));
            assert_eq!(names, vec!["a".to_string(), "b".to_string()]);
        }
        other => panic!("{other:?}"),
    }
}

#[test]
fn an_archive_holds_its_files() {
    assert_eq!(crc32(b"123456789"), 0xcbf4_3926);
    assert_eq!(crc32(b""), 0);
    let files = vec![
        ZipFile { name: "Pack/note.txt".to_string(), data: b"hello-zip".to_vec() },
        ZipFile { name: "b".to_string(), data: Vec::new() },
    ];
    let z = zip_bytes(&files).unwrap();
    assert_eq!(&z[..4], b"PK\x03\x04");
    assert_eq!(&z[30..43], b"Pack/note.txt");
    assert_eq!(&z[43..52], b"hello-zip");
    assert_eq!(&z[52..56], b"PK\x03\x04");
    assert_eq!(&z[18..22], &[9, 0, 0, 0]);
    let list = 52 + 31;
    assert_eq!(&z[list..list + 4], b"PK\x01\x02");
    let end = z.len() - 22;
    assert_eq!(&z[end..end + 4], b"PK\x05\x06");
    assert_eq!(z[end + 10], 2);
    assert_eq!(z[end + 16] as usize, list);
    assert_eq!(z.len(), list + 46 + 13 + 46 + 1 + 22);
    let long = ZipFile { name: "n".repeat(0x1_0000), data: Vec::new() };
    assert!(zip_bytes(&vec![long]).is_none());
}
