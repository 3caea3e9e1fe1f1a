use lora_studio::backends::{
    default_base_url, default_batch_concurrency, default_max_tokens, default_mode, default_python,
    default_timeout_secs, install_paths, install_status, joycaption_args, joycaption_result,
    models_url, chat_completions_url, wd14_args, wd14_result, JoyCaptionSettings, Wd14Settings,
};
use lora_studio::captioner::{
    after_failure, answered, is_timeout_message, request_timeout_secs, AttemptStep, RequestFailure,
    CaptionResult, CaptionScheduler,
};
use lora_studio::captions::{add_tag, join_tags, parse_tags, read_caption, remove_tag, write_caption};
use lora_studio::duplicates::find_duplicates;
use lora_studio::export::{
    caption_file_name, export_caption, export_file_name, export_mode, export_selected, kohya_folder_name,
    rating_folder, ExportMode,
};
use lora_studio::images::{
    center_crop_box, checked_target_size, clamp_crop, crop_copy_name, quarter_turns, suffixed_name,
    training_size,
};
use lora_studio::metadata::{
    clear_all_crop_statuses, clear_all_ratings, crop_statuses_document, get_rating, load_crop_statuses,
    load_ratings, ratings_document, set_crop_status, set_rating, CropStatusData, RatingsData,
};
use lora_studio::paths::{caption_path_for, extension_of, is_image_path, normalize_key, relative_path_str};
use lora_studio::rating::ImageRating;
use lora_studio::rename::{
    caption_step, migrate_store, move_result, CaptionStep, ItemResult, MoveOutcome, RenameBatch,
    RenamePlan, RenameProbe,
};
use lora_studio::resources::parse_u32;
use lora_studio::scan::{image_entry, progress_due, sort_entries, ImageEntry};
use lora_studio::store::{DocumentError, PathKeyedStore};
use lora_studio::thumbnail::{
    after_lookup, cache_file_name, jpeg_data_url, render_thumbnail, thumbnail_cache_key, thumbnail_size, RenderError,
    ThumbnailStep,
};

fn strings(v: &[&str]) -> Vec<String> {
    v.iter().map(|s| s.to_string()).collect()
}

fn rename_all(
    batch: &mut RenameBatch,
    items: &[(&str, RenameProbe)],
    moved: &dyn Fn(&str) -> MoveOutcome,
) -> Vec<Option<String>> {
    let mut names = Vec::new();
    for (rel, probe) in items {
        let plan = batch.plan(rel, match probe {
            RenameProbe::Missing => RenameProbe::Missing,
            RenameProbe::Unresolvable(e) => RenameProbe::Unresolvable(e.clone()),
            RenameProbe::OutsideRoot => RenameProbe::OutsideRoot,
            RenameProbe::Inside => RenameProbe::Inside,
        });
        let result = match plan {
            RenamePlan::Fail(m) => {
                names.push(None);
                ItemResult::Failed(m)
            }
            RenamePlan::Unchanged => {
                names.push(Some(rel.to_string()));
                ItemResult::Unchanged
            }
            RenamePlan::Move { new_name, new_relative } => {
                names.push(Some(new_name.clone()));
                move_result(rel, &new_name, new_relative, moved(rel))
            }
        };
        batch.record(rel, result);
    }
    names
}

#[test]
fn rating_names_round_trip() {
    for r in [ImageRating::Unrated, ImageRating::Good, ImageRating::Bad, ImageRating::NeedsEdit] {
        assert_eq!(ImageRating::from_str(r.as_str()), r);
    }
    assert_eq!(ImageRating::Unrated.as_str(), "none");
    assert_eq!(ImageRating::NeedsEdit.as_str(), "needs_edit");
    assert_eq!(ImageRating::from_str("excellent"), ImageRating::Unrated);
    assert_eq!(ImageRating::default(), ImageRating::Unrated);
}

#[test]
fn sentinel_rating_is_never_stored() {
    let mut data = RatingsData::new();
    set_rating(&mut data, "a.png".to_string(), "good");
    set_rating(&mut data, "b.png".to_string(), "bad");
    set_rating(&mut data, "a.png".to_string(), "none");
    let doc = ratings_document(&data).unwrap();
    let loaded = load_ratings(Some(&doc));
    assert_eq!(loaded.ratings.get("a.png"), None);
    assert_eq!(loaded.ratings.get("b.png"), Some("bad".to_string()));
    let mut again = loaded;
    set_rating(&mut again, "a.png".to_string(), "none");
    assert_eq!(ratings_document(&again).unwrap(), doc);
}

#[test]
fn sentinel_crop_status_is_never_stored() {
    let mut data = CropStatusData::new();
    set_crop_status(&mut data, "x/y.png".to_string(), "cropped".to_string());
    set_crop_status(&mut data, "x/y.png".to_string(), "uncropped".to_string());
    assert_eq!(data.statuses.len(), 0);
    set_crop_status(&mut data, "x/z.png".to_string(), "skipped".to_string());
    let doc = crop_statuses_document(&data).unwrap();
    let loaded = load_crop_statuses(Some(&doc)).unwrap();
    assert_eq!(loaded.statuses.get("x/z.png"), Some("skipped".to_string()));
    assert_eq!(loaded.statuses.get("x/y.png"), None);
}

#[test]
fn store_keys_are_normalized() {
    let mut data = RatingsData::new();
    set_rating(&mut data, "\\sub\\a.png".to_string(), "bad");
    assert_eq!(data.ratings.get("sub/a.png"), Some("bad".to_string()));
    assert_eq!(get_rating(&data, "/sub/a.png"), ImageRating::Bad);
    assert_eq!(normalize_key("//x\\y"), "x/y");
    let mut crops = CropStatusData::new();
    set_crop_status(&mut crops, "/c.png".to_string(), "cropped".to_string());
    assert_eq!(crops.statuses.get("c.png"), Some("cropped".to_string()));
}

#[test]
fn ratings_document_text() {
    let mut data = RatingsData::new();
    set_rating(&mut data, "a.png".to_string(), "good");
    assert_eq!(
        ratings_document(&data).unwrap(),
        "{\n  \"ratings\": {\n    \"a.png\": \"good\"\n  }\n}"
    );
}

#[test]
fn ratings_load_is_tolerant() {
    assert_eq!(load_ratings(None).ratings.len(), 0);
    assert_eq!(load_ratings(Some("not json")).ratings.len(), 0);
    assert_eq!(load_ratings(Some("{\"other\": {}}")).ratings.len(), 0);
    let data = load_ratings(Some("{\"ratings\": {\"a/b.png\": \"needs_edit\"}}"));
    assert_eq!(get_rating(&data, "a/b.png"), ImageRating::NeedsEdit);
    assert_eq!(get_rating(&data, "a/c.png"), ImageRating::Unrated);
    let extra = load_ratings(Some("{\"version\": 2, \"ratings\": {\"a.png\": \"good\"}}"));
    assert_eq!(get_rating(&extra, "a.png"), ImageRating::Good);
}

#[test]
fn crop_status_load_is_strict() {
    assert!(matches!(load_crop_statuses(Some("[1, 2")), Err(DocumentError::Malformed(_))));
    assert!(matches!(load_crop_statuses(Some("{\"ratings\": {}}")), Err(DocumentError::MissingField)));
    assert!(matches!(load_crop_statuses(Some("{\"statuses\": {\"a\": 1}}")), Err(DocumentError::Malformed(_))));
    let extra = load_crop_statuses(Some("{\"note\": [1], \"statuses\": {\"a\": \"cropped\"}}")).unwrap();
    assert_eq!(extra.statuses.get("a"), Some("cropped".to_string()));
    assert_eq!(load_crop_statuses(None).unwrap().statuses.len(), 0);
}

#[test]
fn clearing_counts_entries() {
    let mut data = load_ratings(Some("{\"ratings\": {\"a\": \"good\", \"b\": \"bad\"}}"));
    assert_eq!(clear_all_ratings(&mut data), 2);
    assert_eq!(data.ratings.len(), 0);
    let mut crops = load_crop_statuses(Some("{\"statuses\": {\"a\": \"cropped\"}}")).unwrap();
    assert_eq!(clear_all_crop_statuses(&mut crops), 1);
}

#[test]
fn store_migration_keeps_unmoved_entries() {
    let mut s = PathKeyedStore::new();
    s.insert("a.png".to_string(), "good".to_string());
    s.insert("b.png".to_string(), "bad".to_string());
    s.insert("img_002.png".to_string(), "needs_edit".to_string());
    let pairs = vec![
        ("a.png".to_string(), "img_001.png".to_string()),
        ("b.png".to_string(), "img_002.png".to_string()),
    ];
    migrate_store(&mut s, &pairs);
    assert_eq!(s.get("a.png"), None);
    assert_eq!(s.get("b.png"), None);
    assert_eq!(s.get("img_001.png"), Some("good".to_string()));
    assert_eq!(s.get("img_002.png"), Some("needs_edit".to_string()));
    assert_eq!(s.len(), 2);
}

#[test]
fn rename_index_continuity() {
    let mut batch = RenameBatch::start("img", 1, 3, 3).unwrap();
    let items = [
        ("a.png", RenameProbe::Inside),
        ("MISSING.png", RenameProbe::Missing),
        ("b.png", RenameProbe::Inside),
    ];
    let names = rename_all(&mut batch, &items, &|_| MoveOutcome::Moved);
    assert_eq!(names, vec![Some("img_001.png".to_string()), None, Some("img_003.png".to_string())]);
    let mappings = batch.mappings().clone();
    assert_eq!(
        mappings,
        vec![
            ("a.png".to_string(), "img_001.png".to_string()),
            ("b.png".to_string(), "img_003.png".to_string())
        ]
    );
    let result = batch.finish();
    assert!(!result.success);
    assert_eq!(result.renamed_count, 2);
    assert_eq!(result.errors, vec!["Not found: MISSING.png".to_string()]);
}

#[test]
fn rename_rolls_back_when_caption_target_exists() {
    assert_eq!(caption_step(true, true), CaptionStep::RollBack);
    assert_eq!(caption_step(true, false), CaptionStep::MoveCaption);
    assert_eq!(caption_step(false, true), CaptionStep::NoCaption);
    let mut batch = RenameBatch::start("img", 1, 2, 3).unwrap();
    let items = [
        ("a.png", RenameProbe::Inside),
        ("sub/b.png", RenameProbe::Inside),
        ("c.png", RenameProbe::Inside),
    ];
    let outcome = |rel: &str| {
        if rel == "sub/b.png" {
            MoveOutcome::CaptionTargetExists
        } else {
            MoveOutcome::Moved
        }
    };
    rename_all(&mut batch, &items, &outcome);
    let mappings = batch.mappings().clone();
    assert_eq!(
        mappings,
        vec![
            ("a.png".to_string(), "img_01.png".to_string()),
            ("c.png".to_string(), "img_03.png".to_string())
        ]
    );
    let result = batch.finish();
    assert_eq!(result.errors, vec!["Caption target exists: img_02.png".to_string()]);
    assert_eq!(result.renamed_count, 2);
}

#[test]
fn rename_plans() {
    let batch = RenameBatch::start("  shot ", 7, 0, 1).unwrap();
    match batch.plan("dir/photo.JPG", RenameProbe::Inside) {
        RenamePlan::Move { new_name, new_relative } => {
            assert_eq!(new_name, "shot_7.JPG");
            assert_eq!(new_relative, "dir/shot_7.JPG");
        }
        _ => panic!("expected a move"),
    }
    assert!(matches!(batch.plan("dir/shot_7.JPG", RenameProbe::Inside), RenamePlan::Unchanged));
    let wide = RenameBatch::start("p", 5, 40, 1).unwrap();
    match wide.plan("noext", RenameProbe::Inside) {
        RenamePlan::Move { new_name, .. } => assert_eq!(new_name, "p_000000000005.png"),
        _ => panic!("expected a move"),
    }
    match batch.plan("../x.png", RenameProbe::OutsideRoot) {
        RenamePlan::Fail(m) => assert_eq!(m, "Path outside project: ../x.png"),
        _ => panic!("expected a failure"),
    }
    match batch.plan("y.png", RenameProbe::Unresolvable("denied".to_string())) {
        RenamePlan::Fail(m) => assert_eq!(m, "Invalid path y.png: denied"),
        _ => panic!("expected a failure"),
    }
    assert_eq!(RenameBatch::start("   ", 1, 4, 1).err(), Some("Prefix cannot be empty".to_string()));
}

#[test]
fn rename_failure_messages() {
    let r = move_result("a.png", "img_1.png", "img_1.png".to_string(), MoveOutcome::TargetExists);
    assert!(matches!(r, ItemResult::Failed(m) if m == "Target already exists: img_1.png"));
    let r = move_result("a.png", "img_1.png", "img_1.png".to_string(), MoveOutcome::MoveFailed("busy".to_string()));
    assert!(matches!(r, ItemResult::Failed(m) if m == "Rename a.png: busy"));
    let r = move_result("a.png", "img_1.png", "img_1.png".to_string(), MoveOutcome::CaptionMoveFailed);
    assert!(matches!(r, ItemResult::Failed(m) if m == "Failed to rename caption for: a.png"));
    let batch = RenameBatch::start("img", 1, 4, 2).unwrap();
    let p = batch.progress("a.png");
    assert_eq!((p.current, p.total, p.current_file.as_str()), (1, 2, "a.png"));
}

#[test]
fn caption_round_trip() {
    let tags = strings(&["a", "b c", "d"]);
    let text = write_caption(&tags);
    assert_eq!(text, "a, b c, d");
    assert_eq!(parse_tags(&text), tags);
    assert_eq!(parse_tags(" x ,, y,\n"), strings(&["x", "y"]));
    assert_eq!(parse_tags(""), Vec::<String>::new());
    assert_eq!(join_tags(&Vec::new()), "");
}

#[test]
fn read_caption_data() {
    let c = read_caption(Some("  cat, dog \n"));
    assert!(c.exists);
    assert_eq!(c.raw, "cat, dog");
    assert_eq!(c.tags, strings(&["cat", "dog"]));
    let none = read_caption(None);
    assert!(!none.exists && none.raw.is_empty() && none.tags.is_empty());
}

#[test]
fn adding_and_removing_tags() {
    let tags = strings(&["Cat", "dog"]);
    let (same, added) = add_tag(&tags, " cat ");
    assert!(!added);
    assert_eq!(same, tags);
    let (more, added) = add_tag(&tags, "  bird ");
    assert!(added);
    assert_eq!(more, strings(&["Cat", "dog", "bird"]));
    assert!(!add_tag(&tags, "   ").1);
    assert_eq!(remove_tag(&strings(&["Straße", "CAT", "cat", "dog"]), " Cat "), strings(&["Straße", "dog"]));
    assert_eq!(remove_tag(&strings(&["ÉTÉ", "x"]), "été"), strings(&["x"]));
}

#[test]
fn image_paths() {
    assert!(is_image_path("/a/b/photo.PNG"));
    assert!(is_image_path("x.jpeg"));
    assert!(!is_image_path("/a/.png"));
    assert!(!is_image_path("/a/b.txt"));
    assert!(!is_image_path("/a.png/b"));
    assert_eq!(caption_path_for("/a/b/photo.png"), "/a/b/photo.txt");
    assert_eq!(caption_path_for("/a/b.c/photo"), "/a/b.c/photo.txt");
    assert_eq!(extension_of("a/b.tar.gz"), Some("gz".to_string()));
    assert_eq!(extension_of("a/.hidden"), None);
    assert_eq!(relative_path_str("/root/p/a\\b.png", "/root/p"), Some("a/b.png".to_string()));
    assert_eq!(relative_path_str("/root/pq/a.png", "/root/p"), None);
    assert_eq!(relative_path_str("/root/p/a.png", "/root/p/"), Some("a.png".to_string()));
}

fn entry(path: &str, root: &str, ratings: &RatingsData) -> ImageEntry {
    image_entry(path, root, Some("x, y"), ratings, (0, 20), Some(0))
}

#[test]
fn scan_entries_and_order() {
    let ratings = load_ratings(Some("{\"ratings\": {\"b/c.png\": \"good\"}}"));
    let e = entry("/p/b/c.png", "/p", &ratings);
    assert_eq!(e.relative_path, "b/c.png");
    assert_eq!(e.filename, "c.png");
    assert_eq!(e.rating, "good");
    assert_eq!(e.tags, strings(&["x", "y"]));
    assert!(e.has_caption);
    assert_eq!((e.width, e.height, e.file_size), (None, Some(20), None));
    let other = image_entry("/elsewhere/z.png", "/p", None, &ratings, (3, 4), Some(9));
    assert_eq!(other.relative_path, "/elsewhere/z.png");
    assert_eq!(other.rating, "none");
    assert!(!other.has_caption);
    let first = sort_entries(vec![
        entry("/p/b/c.png", "/p", &ratings),
        entry("/p/a.png", "/p", &ratings),
        entry("/p/B.png", "/p", &ratings),
        entry("/p/b.png", "/p", &ratings),
    ]);
    let order: Vec<String> = first.iter().map(|e| e.relative_path.clone()).collect();
    assert_eq!(order, strings(&["B.png", "a.png", "b.png", "b/c.png"]));
    let second = sort_entries(vec![
        entry("/p/b.png", "/p", &ratings),
        entry("/p/B.png", "/p", &ratings),
        entry("/p/a.png", "/p", &ratings),
        entry("/p/b/c.png", "/p", &ratings),
    ]);
    let again: Vec<(String, Vec<String>, String)> =
        second.iter().map(|e| (e.relative_path.clone(), e.tags.clone(), e.rating.clone())).collect();
    let before: Vec<(String, Vec<String>, String)> =
        first.iter().map(|e| (e.relative_path.clone(), e.tags.clone(), e.rating.clone())).collect();
    assert_eq!(again, before);
    assert!(progress_due(50) && progress_due(100) && !progress_due(0) && !progress_due(51));
}

#[test]
fn duplicate_groups() {
    let files = vec![
        ("a.png".to_string(), "h1".to_string()),
        ("b.png".to_string(), "h2".to_string()),
        ("sub/c.png".to_string(), "h1".to_string()),
        ("d.png".to_string(), "h3".to_string()),
        ("".to_string(), "h3".to_string()),
        ("e.png".to_string(), "h2".to_string()),
        ("f.png".to_string(), "h1".to_string()),
    ];
    let r = find_duplicates(&files);
    assert_eq!(
        r.groups,
        vec![strings(&["a.png", "sub/c.png", "f.png"]), strings(&["b.png", "e.png"])]
    );
    assert!(find_duplicates(&Vec::new()).groups.is_empty());
}

#[test]
fn thumbnail_keys() {
    let k = thumbnail_cache_key("/tmp/a.png", 123, 256);
    assert_eq!(k, "4fe0835d6e3e8f49d008d21c70182f4e");
    assert_eq!(thumbnail_cache_key("/tmp/a.png", 123, 256), k);
    assert_eq!(thumbnail_cache_key("/tmp/a.png", 124, 256), "bbb8ea1d5313be9d7b03afac75ad38de");
    assert_ne!(thumbnail_cache_key("/tmp/a.png", 123, 128), k);
    assert_eq!(cache_file_name(&k), "4fe0835d6e3e8f49d008d21c70182f4e.jpg");
    assert_eq!(thumbnail_size(None), 256);
    assert_eq!(thumbnail_size(Some(100)), 100);
    assert_eq!(thumbnail_size(Some(4000)), 512);
}

#[test]
fn thumbnail_cache_hits_are_served_verbatim() {
    match after_lookup(Some(vec![1, 2, 3])) {
        ThumbnailStep::Serve(b) => assert_eq!(b, vec![1, 2, 3]),
        ThumbnailStep::Render => panic!("a hit must not render"),
    }
    assert!(matches!(after_lookup(None), ThumbnailStep::Render));
    assert_eq!(jpeg_data_url(&[1, 2, 3, 250]), "data:image/jpeg;base64,AQID+g==");
    assert_eq!(jpeg_data_url(&[0xFF, 0xFE]), "data:image/jpeg;base64,//4=");
    assert_eq!(jpeg_data_url(&[]), "data:image/jpeg;base64,");
}

#[test]
fn thumbnails_are_rendered_as_jpeg() {
    let img = image::RgbImage::from_pixel(8, 4, image::Rgb([200, 10, 10]));
    let mut png = Vec::new();
    image::DynamicImage::ImageRgb8(img)
        .write_to(&mut std::io::Cursor::new(&mut png), image::ImageFormat::Png)
        .unwrap();
    let jpeg = render_thumbnail(&png, 2).unwrap();
    assert_eq!(&jpeg[..2], &[0xFF, 0xD8]);
    let back = image::load_from_memory(&jpeg).unwrap();
    assert_eq!((back.width(), back.height()), (2, 1));
    assert!(matches!(render_thumbnail(b"not an image", 64), Err(RenderError::Decode(_))));
}

#[test]
fn batch_caption_order_is_input_order() {
    let mut s = CaptionScheduler::new(strings(&["one.png", "two.png", "three.png"]), 3);
    assert_eq!(s.launch(), Some(0));
    assert_eq!(s.launch(), Some(1));
    assert_eq!(s.launch(), Some(2));
    assert_eq!(s.launch(), None);
    let ok = |c: &str| Ok(CaptionResult { success: true, caption: c.to_string(), error: None });
    s.complete(2, ok("third"));
    s.complete(0, ok("first"));
    s.complete(1, Err("broken".to_string()));
    assert!(s.is_done());
    let r = s.finish();
    let paths: Vec<&str> = r.iter().map(|b| b.path.as_str()).collect();
    assert_eq!(paths, vec!["one.png", "two.png", "three.png"]);
    assert_eq!(r[0].caption, "first");
    assert!(!r[1].success && r[1].error == Some("broken".to_string()) && r[1].caption.is_empty());
    assert_eq!(r[2].caption, "third");
}

#[test]
fn batch_caption_concurrency_cap() {
    let mut s = CaptionScheduler::new(strings(&["a", "b", "c"]), 0);
    assert_eq!(s.launch(), Some(0));
    assert_eq!(s.launch(), None);
    s.complete(0, Err("x".to_string()));
    assert_eq!(s.launch(), Some(1));
    let mut wide = CaptionScheduler::new(strings(&["a"; 10]), 99);
    let mut launched = 0;
    while wide.launch().is_some() {
        launched += 1;
    }
    assert_eq!(launched, 8);
}

#[test]
fn retry_once_on_timeout() {
    assert!(matches!(after_failure(1, RequestFailure::TimedOut("t".to_string()), 30), AttemptStep::Retry));
    match after_failure(1, RequestFailure::Failed("refused".to_string()), 30) {
        AttemptStep::GiveUp(c) => assert_eq!(c.error, Some("Request failed: refused".to_string())),
        _ => panic!("no retry for other failures"),
    }
    match after_failure(2, RequestFailure::TimedOut("t".to_string()), 30) {
        AttemptStep::GiveUp(c) => assert_eq!(
            c.error,
            Some("Request timed out after 30 seconds (tried 2 times). Try a larger timeout in settings or use smaller images.".to_string())
        ),
        _ => panic!("only one retry"),
    }
    assert!(matches!(after_failure(2, RequestFailure::Failed("reset".to_string()), 30), AttemptStep::GiveUp(_)));
    assert!(is_timeout_message("operation timed out"));
    assert!(is_timeout_message("timeout"));
    assert!(!is_timeout_message("connection refused"));
    assert_eq!(request_timeout_secs(0), 1);
    assert_eq!(request_timeout_secs(9999), 600);
    assert_eq!(answered(Some("  a caption \n")).caption, "a caption");
}

#[test]
fn backend_settings() {
    assert_eq!(default_base_url(), "http://localhost:1234");
    assert_eq!((default_max_tokens(), default_timeout_secs(), default_batch_concurrency()), (300, 120, 1));
    assert_eq!((default_python().as_str(), default_mode().as_str()), ("python", "descriptive"));
    assert_eq!(models_url("http://h:1//"), "http://h:1/v1/models");
    assert_eq!(chat_completions_url("http://h:1"), "http://h:1/v1/chat/completions");
    let s = JoyCaptionSettings { python_path: "py".to_string(), script_path: None, mode: "booru".to_string(), low_vram: true };
    assert_eq!(joycaption_args(&s, "i.png"), strings(&["-m", "joycaption", "--image", "i.png", "--mode", "booru", "--low-vram"]));
    let w = Wd14Settings { python_path: "py".to_string(), script_path: Some("t.py".to_string()) };
    assert_eq!(wd14_args(&w, "i.png").unwrap(), strings(&["t.py", "--image", "i.png"]));
    let unset = Wd14Settings { python_path: "py".to_string(), script_path: Some(String::new()) };
    assert_eq!(
        wd14_args(&unset, "i.png").err().unwrap().error,
        Some("WD14 script path is not set. Set it in AI settings.".to_string())
    );
    assert_eq!(joycaption_result(true, " tags \n", "", Some(0)).caption, "tags");
    assert_eq!(joycaption_result(false, "", "", Some(-2)).error, Some("JoyCaption exited with code: Some(-2)".to_string()));
    assert_eq!(wd14_result(false, "", " boom ", None).error, Some("boom".to_string()));
    let (py, script) = install_paths("/d", false);
    assert_eq!((py.as_str(), script.as_str()), ("/d/venv/bin/python", "/d/joycaption_inference.py"));
    assert!(!install_status((py.clone(), script.clone()), true, false).installed);
    assert_eq!(install_status((py, script), true, true).python_path, Some("/d/venv/bin/python".to_string()));
}

#[test]
fn export_naming() {
    assert_eq!(export_file_name(0, Some("png"), true, Some("x.png")), "0001.png");
    assert_eq!(export_file_name(41, None, true, None), "0042.png");
    assert_eq!(export_file_name(3, Some("png"), false, Some("x.png")), "x.png");
    assert_eq!(export_file_name(3, None, false, None), "image.png");
    assert_eq!(caption_file_name("0001.png"), "0001.txt");
    assert_eq!(caption_file_name("noext"), "noext.txt");
    assert_eq!(export_caption(" a, b \n", Some(" trig ")), "trig, a, b");
    assert_eq!(export_caption(" a ", Some("")), "a");
    assert_eq!(kohya_folder_name(10, " my/char "), "10_my_char");
    assert_eq!(kohya_folder_name(3, "  "), "3_concept");
    assert_eq!(rating_folder(ImageRating::NeedsEdit), Some("needs_edit"));
    assert_eq!(rating_folder(ImageRating::Unrated), None);
    assert_eq!(export_mode(true, &Some("metadata".to_string()), false).err(), Some("ZIP + metadata.json format not supported; use folder export".to_string()));
    assert_eq!(export_mode(true, &None, true).err(), Some("Kohya folder structure requires folder export, not ZIP".to_string()));
    assert_eq!(export_mode(false, &Some("metadata".to_string()), true).ok(), Some(ExportMode::FolderWithMetadata));
    assert_eq!(export_mode(true, &Some("txt".to_string()), false).ok(), Some(ExportMode::Zip));
}

#[test]
fn export_selection() {
    let wanted = strings(&["sub\\a.png", "b.png"]);
    assert!(export_selected(Some("sub/a.png"), Some(&wanted), false, false));
    assert!(!export_selected(Some("c.png"), Some(&wanted), false, true));
    assert!(!export_selected(None, Some(&wanted), false, true));
    assert!(export_selected(None, None, false, false));
    assert!(!export_selected(Some("b.png"), Some(&wanted), true, false));
    assert!(export_selected(Some("b.png"), Some(&wanted), true, true));
}

#[test]
fn crop_arithmetic() {
    assert_eq!(clamp_crop(10, 10, 500, 500, 100, 50), Some((10, 10, 90, 40)));
    assert_eq!(clamp_crop(200, 0, 10, 10, 100, 50), Some((99, 0, 1, 10)));
    assert_eq!(clamp_crop(0, 0, 0, 10, 100, 50), None);
    assert_eq!(clamp_crop(0, 0, 10, 10, 0, 50), None);
    assert_eq!((quarter_turns(90), quarter_turns(-90), quarter_turns(450), quarter_turns(-360), quarter_turns(89)), (1, 3, 1, 0, 0));
    assert_eq!((training_size(Some(63)), training_size(Some(512)), training_size(None)), (None, Some(512), None));
    assert_eq!(checked_target_size(2049).err(), Some("Target size must be between 64 and 2048".to_string()));
    assert_eq!(checked_target_size(64), Ok(64));
    assert_eq!(center_crop_box(300, 200, 512), (50, 0, 200));
    assert_eq!(center_crop_box(300, 200, 100), (100, 50, 100));
    assert_eq!(crop_copy_name("pic", 3, "png"), "pic_3_crop.png");
    assert_eq!(suffixed_name("pic", "_med", "jpg"), "pic_med.jpg");
}

#[test]
fn parsing_whole_numbers() {
    assert_eq!(parse_u32(" 1395 "), Some(1395));
    assert_eq!(parse_u32("1395.5"), Some(1395));
    assert_eq!(parse_u32("12,7"), Some(12));
    assert_eq!(parse_u32("+7"), Some(7));
    assert_eq!(parse_u32("4294967295"), Some(u32::MAX));
    assert_eq!(parse_u32("4294967296"), None);
    assert_eq!(parse_u32("[N/A]"), None);
    assert_eq!(parse_u32(""), None);
    assert_eq!(parse_u32(".5"), None);
}
