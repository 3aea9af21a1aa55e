use evolve_nn::{
    check_manifest, has_png_extension, record_bytes, ClassifiedData, ConsumableType, DataItem,
    Dataset, DatasetLoader, Datum, FileError, FileSystemLoader, PathKind, SHARE_SCALE,
};

/// Eight big-endian floats held as their 32 raw bytes.
type Floats8 = [u8; 32];

fn values(d: &Floats8) -> [f32; 8] {
    let mut out = [0.0f32; 8];
    for (i, v) in out.iter_mut().enumerate() {
        let chunk = [d[4 * i], d[4 * i + 1], d[4 * i + 2], d[4 * i + 3]];
        *v = f32::from_bits(u32::from_arr(chunk));
    }
    out
}

fn raw_record(values: [f32; 8]) -> Vec<u8> {
    values.iter().flat_map(|v| v.to_be_bytes()).collect()
}

fn png_image(width: u32, height: u32, pixels: &[u8]) -> Vec<u8> {
    let mut out = Vec::new();
    {
        let mut encoder = png::Encoder::new(&mut out, width, height);
        encoder.set_color(png::ColorType::Grayscale);
        encoder.set_depth(png::BitDepth::Eight);
        let mut writer = encoder.write_header().unwrap();
        writer.write_image_data(pixels).unwrap();
    }
    out
}

const FIRST: [f32; 8] = [1.0, 2.0, 3.0, 4.0, 5.0, 6.0, 7.0, 8.0];
const SECOND: [f32; 8] = [-1.0, 0.5, 0.25, 0.0, 9.0, 10.0, 11.0, 12.0];

fn two_entry_loader() -> FileSystemLoader<Floats8, f32, 32> {
    FileSystemLoader::new(vec![
        (DataItem::new("a.bin".to_string(), 1.0f32), Some(raw_record(FIRST))),
        (DataItem::new("b.bin".to_string(), 0.0f32), Some(raw_record(SECOND))),
    ])
}

fn load(mut loader: FileSystemLoader<Floats8, f32, 32>, share: u32) -> Dataset<Floats8, f32> {
    let data = Dataset::<Floats8, f32>::new::<_, 32>(&mut loader, share);
    assert!(!DatasetLoader::<Floats8, f32, 32>::has_next(&loader));
    data
}

#[test]
fn manifest_scenario_reads_both_records_in_order() {
    let mut data = load(two_entry_loader(), 0);
    assert!(data.has_training());
    let a = data.get_training().unwrap();
    assert_eq!(values(a.get_data()), FIRST);
    assert_eq!(a.get_class(), 1.0);
    let b = data.get_training().unwrap();
    assert_eq!(values(b.get_data()), SECOND);
    assert_eq!(b.get_class(), 0.0);
    assert!(!data.has_training());
    assert!(data.get_training().is_none());
    data.reset();
    assert!(data.has_training());
    assert_eq!(values(data.get_training().unwrap().get_data()), FIRST);
    assert_eq!(values(data.get_training().unwrap().get_data()), SECOND);
    assert!(data.get_training().is_none());
}

#[test]
fn zero_share_leaves_validation_empty() {
    let mut data = load(two_entry_loader(), 0);
    assert!(data.get_validation().is_none());
    let mut n = 0;
    while data.get_training().is_some() {
        n += 1;
    }
    assert_eq!(n, 2);
}

#[test]
fn full_share_puts_everything_in_validation() {
    let mut data = load(two_entry_loader(), SHARE_SCALE);
    assert!(!data.has_training());
    assert!(data.get_training().is_none());
    assert_eq!(data.get_validation().unwrap().get_class(), 1.0);
    assert_eq!(data.get_validation().unwrap().get_class(), 0.0);
    assert!(data.get_validation().is_none());
    data.reset();
    assert_eq!(values(data.get_validation().unwrap().get_data()), FIRST);
}

#[test]
fn split_covers_every_record_once() {
    let mut sources = Vec::new();
    for k in 0..40 {
        let values = [k as f32; 8];
        sources.push((DataItem::new(format!("r{k}.bin"), k as f32), Some(raw_record(values))));
    }
    let mut data = load(FileSystemLoader::new(sources), SHARE_SCALE / 2);
    let mut seen = Vec::new();
    while let Some(r) = data.get_training() {
        seen.push(r.get_class() as usize);
    }
    let training = seen.len();
    while let Some(r) = data.get_validation() {
        seen.push(r.get_class() as usize);
    }
    assert!(seen[..training].windows(2).all(|w| w[0] < w[1]));
    assert!(seen[training..].windows(2).all(|w| w[0] < w[1]));
    seen.sort();
    assert_eq!(seen, (0..40).collect::<Vec<usize>>());
}

#[test]
fn failed_entries_are_skipped() {
    let loader = FileSystemLoader::new(vec![
        (DataItem::new("missing.bin".to_string(), 5.0f32), None),
        (DataItem::new("short.bin".to_string(), 6.0f32), Some(vec![1, 2, 3])),
        (DataItem::new("broken.png".to_string(), 7.0f32), Some(raw_record(FIRST))),
        (DataItem::new("good.bin".to_string(), 8.0f32), Some(raw_record(SECOND))),
    ]);
    let mut data = load(loader, 0);
    let only = data.get_training().unwrap();
    assert_eq!(only.get_class(), 8.0);
    assert_eq!(values(only.get_data()), SECOND);
    assert!(data.get_training().is_none());
}

#[test]
fn loader_advances_past_every_entry() {
    let mut loader: FileSystemLoader<Floats8, f32, 32> = FileSystemLoader::new(vec![
        (DataItem::new("missing.bin".to_string(), 5.0f32), None),
        (DataItem::new("good.bin".to_string(), 8.0f32), Some(raw_record(FIRST))),
    ]);
    assert!(DatasetLoader::<Floats8, f32, 32>::has_next(&loader));
    let first: Option<ClassifiedData<Floats8, f32>> = loader.next();
    assert!(first.is_none());
    assert!(DatasetLoader::<Floats8, f32, 32>::has_next(&loader));
    let second: Option<ClassifiedData<Floats8, f32>> = loader.next();
    assert_eq!(second.unwrap().get_class(), 8.0);
    assert!(!DatasetLoader::<Floats8, f32, 32>::has_next(&loader));
}

#[test]
fn png_entry_is_decoded_to_pixels() {
    let pixels: Vec<u8> = (100u8..132).collect();
    let file = png_image(8, 4, &pixels);
    assert_ne!(file, pixels);
    assert_eq!(record_bytes("img/one.png", &file), Some(pixels.clone()));
    assert_eq!(record_bytes("img/one.bin", &file), Some(file.clone()));
    assert_eq!(record_bytes("img/one.png", &pixels), None);
    let loader = FileSystemLoader::new(vec![(DataItem::new("x.png".to_string(), 3.0f32), Some(file))]);
    let mut data = load(loader, 0);
    let r = data.get_training().unwrap();
    let expect = f32::from_bits(u32::from_arr([100, 101, 102, 103]));
    assert_eq!(values(r.get_data())[0], expect);
}

#[test]
fn png_extension_is_recognised() {
    assert!(has_png_extension("a/b.png"));
    assert!(has_png_extension("b.png"));
    assert!(has_png_extension("c..png"));
    assert!(!has_png_extension(".png"));
    assert!(!has_png_extension("dir/.png"));
    assert!(!has_png_extension("b.png.bin"));
    assert!(!has_png_extension("b.PNG"));
    assert!(!has_png_extension("png"));
    assert!(!has_png_extension(""));
}

#[test]
fn manifest_path_checks() {
    assert!(check_manifest("data/set.json", PathKind::File).is_ok());
    match check_manifest("data/set.json", PathKind::Missing) {
        Err(FileError::PathNotFound(p)) => assert_eq!(p, "data/set.json"),
        other => panic!("unexpected {other:?}"),
    }
    match check_manifest("data", PathKind::Other) {
        Err(FileError::PathNotDirectoryOrFile(p)) => assert_eq!(p, "data"),
        other => panic!("unexpected {other:?}"),
    }
    match check_manifest("data/set.csv", PathKind::File) {
        Err(FileError::IncorrectFormat(p, f)) => {
            assert_eq!(p, "data/set.csv");
            assert_eq!(f, "unknown");
        }
        other => panic!("unexpected {other:?}"),
    }
}

#[test]
fn empty_manifest_gives_empty_dataset() {
    let mut data = load(FileSystemLoader::new(Vec::new()), SHARE_SCALE / 2);
    assert!(!data.has_training());
    assert!(data.get_training().is_none());
    assert!(data.get_validation().is_none());
    data.reset();
    assert!(data.get_training().is_none());
}

#[test]
fn validation_cursor_is_independent_of_training() {
    let mut data = load(two_entry_loader(), SHARE_SCALE);
    assert_eq!(data.get_validation().unwrap().get_class(), 1.0);
    assert!(data.get_training().is_none());
    assert_eq!(data.get_validation().unwrap().get_class(), 0.0);
    assert!(data.get_validation().is_none());
    data.reset();
    assert_eq!(data.get_validation().unwrap().get_class(), 1.0);
}

#[test]
fn byte_record_takes_leading_bytes() {
    assert_eq!(<[u8; 4] as Datum<4>>::from(vec![1, 2, 3, 4, 5]), Some([1, 2, 3, 4]));
    assert_eq!(<[u8; 4] as Datum<4>>::from(vec![1, 2, 3, 4]), Some([1, 2, 3, 4]));
    assert_eq!(<[u8; 4] as Datum<4>>::from(vec![1, 2, 3]), None);
    assert_eq!(<[u8; 0] as Datum<0>>::from(Vec::new()), Some([]));
}
