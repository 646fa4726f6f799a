use ruplicity::collections::file_naming::{FileNameInfo, FileNameParser, Info, Type};
use ruplicity::collections::{BackupSet, Collections, SignatureChain};
use ruplicity::time_utils::parse_time_str;

fn get_test_filenames() -> Vec<&'static str> {
    vec!["duplicity-full.20150617T182545Z.manifest",
         "duplicity-full.20150617T182545Z.vol1.difftar.gz",
         "duplicity-full-signatures.20150617T182545Z.sigtar.gz",
         "duplicity-inc.20150617T182545Z.to.20150617T182629Z.manifest",
         "duplicity-inc.20150617T182545Z.to.20150617T182629Z.vol1.difftar.gz",
         "duplicity-inc.20150617T182629Z.to.20150617T182650Z.manifest",
         "duplicity-inc.20150617T182629Z.to.20150617T182650Z.vol1.difftar.gz",
         "duplicity-new-signatures.20150617T182545Z.to.20150617T182629Z.sigtar.gz",
         "duplicity-new-signatures.20150617T182629Z.to.20150617T182650Z.sigtar.gz"]
}

#[test]
fn parse_and_add() {
    let full1_name = "duplicity-full.20150617T182545Z.vol1.difftar.gz";
    let manifest1_name = "duplicity-full.20150617T182545Z.manifest";
    let inc1_name = "duplicity-inc.20150617T182629Z.to.20150617T182650Z.vol1.difftar.gz";

    let parser = FileNameParser::new();
    let full1 = FileNameInfo::new(full1_name, parser.parse(full1_name).unwrap());
    let manifest1 = FileNameInfo::new(manifest1_name, parser.parse(manifest1_name).unwrap());
    let inc1 = FileNameInfo::new(inc1_name, parser.parse(inc1_name).unwrap());

    let mut set = BackupSet::new(&full1);
    // add to set
    assert!(set.add_filename(&manifest1));
    assert!(!set.add_filename(&inc1));
    // test results
    assert!(set.is_full());
    assert_eq!(set.end_time(), parse_time_str("20150617t182545z").unwrap());
    assert!(set.is_compressed());
    assert!(!set.is_encrypted());
    assert!(!set.is_partial());
    assert_eq!(set.manifest_path(), manifest1_name);
}

#[test]
fn collection_status_display() {
    // the text depends on the local time zone: only print it
    let filenames = get_test_filenames();
    let collection_status = Collections::from_filenames(&filenames);
    let display = format!("{}\n", collection_status.to_display_string());
    println!("collection status:\n{}\n", display);
}

#[test]
fn collection_status() {
    let filenames = get_test_filenames();
    let collection_status = Collections::from_filenames(&filenames);
    assert_eq!(collection_status.backup_chains().count(), 1);
    assert_eq!(collection_status.signature_chains().count(), 1);
    // backup chain
    let backup_chain = collection_status.backup_chains().next().unwrap();
    assert_eq!(backup_chain.num_inc_sets(), 2);
    assert_eq!(backup_chain.start_time(),
               parse_time_str("20150617t182545z").unwrap());
    assert_eq!(backup_chain.end_time(),
               parse_time_str("20150617t182650z").unwrap());
    // full backup
    let full = backup_chain.full_set();
    assert!(full.is_full());
    assert_eq!(full.end_time(), parse_time_str("20150617t182545z").unwrap());
    // inc backups
    {
        let inc = backup_chain.inc_set(0);
        assert!(inc.is_incremental());
        assert_eq!(inc.start_time(),
                   parse_time_str("20150617t182545z").unwrap());
        assert_eq!(inc.end_time(), parse_time_str("20150617t182629z").unwrap());
    }
    {
        let inc = backup_chain.inc_set(1);
        assert!(inc.is_incremental());
        assert_eq!(inc.start_time(),
                   parse_time_str("20150617t182629z").unwrap());
        assert_eq!(inc.end_time(), parse_time_str("20150617t182650z").unwrap());
    }
}

#[test]
fn file_naming_parser_test() {
    let parser = FileNameParser::new();
    // invalid
    assert_eq!(parser.parse("invalid"), None);
    // full
    assert_eq!(parser.parse("duplicity-full.20150617T182545Z.vol1.difftar.gz"),
               Some(Info { tp: Type::Full { time: parse_time_str("20150617t182545z").unwrap(),
                                            volume_number: 1 },
                           compressed: true,
                           encrypted: false }));
    // full manifest
    assert_eq!(parser.parse("duplicity-full.20150617T182545Z.manifest"),
               Some(Info { tp: Type::FullManifest { time: parse_time_str("20150617t182545z").unwrap(),
                                                    partial: false },
                           compressed: false,
                           encrypted: false }));
    // inc
    assert_eq!(parser.parse("duplicity-inc.20150617T182629Z.to.20150617T182650Z.vol1.difftar.gz"),
               Some(Info { tp: Type::Inc { start_time: parse_time_str("20150617t182629z").unwrap(),
                                           end_time: parse_time_str("20150617t182650z").unwrap(),
                                           volume_number: 1 },
                           compressed: true,
                           encrypted: false }));
    // inc manifest
    assert_eq!(parser.parse("duplicity-inc.20150617T182545Z.to.20150617T182629Z.manifest"),
               Some(Info { tp: Type::IncManifest { start_time: parse_time_str("20150617t182545z").unwrap(),
                                                   end_time: parse_time_str("20150617t182629z").unwrap(),
                                                   partial: false },
                           compressed: false,
                           encrypted: false }));
    // new sig
    assert_eq!(parser.parse("duplicity-new-signatures.20150617T182545Z.to.20150617T182629Z.sigtar.gz"),
               Some(Info { tp: Type::NewSig { start_time: parse_time_str("20150617t182545z").unwrap(),
                                              end_time: parse_time_str("20150617t182629z").unwrap(),
                                              partial: false },
                           compressed: true,
                           encrypted: false }));
    // full sig
    assert_eq!(parser.parse("duplicity-full-signatures.20150617T182545Z.sigtar.gz"),
               Some(Info { tp: Type::FullSig { time: parse_time_str("20150617t182545z").unwrap(),
                                               partial: false },
                           compressed: true,
                           encrypted: false }));
}

#[test]
fn chains_sorted_and_well_formed() {
    let names = vec!["duplicity-full.20160108T223209Z.manifest",
                     "duplicity-full.20160108T223209Z.vol1.difftar.gz",
                     "duplicity-full.20160108T223144Z.manifest",
                     "duplicity-full.20160108T223144Z.vol1.difftar.gz",
                     "duplicity-inc.20160108T223144Z.to.20160108T223159Z.manifest",
                     "duplicity-inc.20160108T223144Z.to.20160108T223159Z.vol1.difftar.gz",
                     "duplicity-inc.20160108T223209Z.to.20160108T223217Z.manifest",
                     "duplicity-inc.20160108T223209Z.to.20160108T223217Z.vol1.difftar.gz",
                     "duplicity-full-signatures.20160108T223209Z.sigtar.gz",
                     "duplicity-full-signatures.20160108T223144Z.sigtar.gz",
                     "duplicity-new-signatures.20160108T223144Z.to.20160108T223159Z.sigtar.gz",
                     "duplicity-new-signatures.20160108T223209Z.to.20160108T223217Z.sigtar.gz",
                     "unrelated.txt"];
    let coll = Collections::from_filenames(&names);
    assert_eq!(coll.num_backup_chains(), 2);
    assert_eq!(coll.num_snapshots(), 4);
    let c0 = coll.backup_chain(0);
    let c1 = coll.backup_chain(1);
    assert!(c0.end_time().sec <= c1.end_time().sec);
    assert_eq!(c0.start_time(), parse_time_str("20160108t223144z").unwrap());
    assert_eq!(c0.end_time(), parse_time_str("20160108t223159z").unwrap());
    assert_eq!(c1.start_time(), parse_time_str("20160108t223209z").unwrap());
    assert_eq!(c1.end_time(), parse_time_str("20160108t223217z").unwrap());
    assert_eq!(c0.inc_set(0).start_time(), c0.start_time());
    // one signature chain per full signature
    assert_eq!(coll.num_signature_chains(), 2);
    assert_eq!(coll.signature_chain(0).full_signature().file_name,
               "duplicity-full-signatures.20160108T223144Z.sigtar.gz");
    // in chronological order, each incremental signature in the chain
    // that ends where it starts
    assert_eq!(coll.signature_chain(1).full_signature().file_name,
               "duplicity-full-signatures.20160108T223209Z.sigtar.gz");
    assert_eq!(coll.signature_chain(0).num_inc_signatures(), 1);
    assert_eq!(coll.signature_chain(0).inc_signature(0).file_name,
               "duplicity-new-signatures.20160108T223144Z.to.20160108T223159Z.sigtar.gz");
    assert_eq!(coll.signature_chain(1).num_inc_signatures(), 1);
    assert_eq!(coll.signature_chain(1).inc_signature(0).file_name,
               "duplicity-new-signatures.20160108T223209Z.to.20160108T223217Z.sigtar.gz");
}

#[test]
fn set_line_columns() {
    let parser = FileNameParser::new();
    let name = "duplicity-full.20150617T182545Z.vol1.difftar.gz";
    let set = BackupSet::new(&FileNameInfo::new(name, parser.parse(name).unwrap()));
    assert_eq!(set.line_with_time("Jun 17  2015"),
               format!("{:<20} {:<13} {:>12}", "Full", "Jun 17  2015", 1));
    assert_eq!(set.volume_path(1), Some(name));
    assert_eq!(set.volume_path(2), None);
    assert_eq!(set.num_volumes(), 1);
}

#[test]
fn empty_collection() {
    let none: [&str; 0] = [];
    let coll = Collections::from_filenames(&none);
    assert_eq!(coll.num_backup_chains(), 0);
    assert_eq!(coll.num_signature_chains(), 0);
    assert_eq!(coll.num_snapshots(), 0);
    assert_eq!(coll.to_display_string(), "");
}

#[test]
fn new_signature_must_follow_chain() {
    let parser = FileNameParser::new();
    let full = "duplicity-full-signatures.20160108T223144Z.sigtar.gz";
    let mut chain = SignatureChain::from_filename_info(&FileNameInfo::new(full, parser.parse(full).unwrap()));
    let gap = "duplicity-new-signatures.20160108T223159Z.to.20160108T223217Z.sigtar.gz";
    assert!(!chain.add_new_sig(&FileNameInfo::new(gap, parser.parse(gap).unwrap())));
    assert_eq!(chain.num_inc_signatures(), 0);
    let next = "duplicity-new-signatures.20160108T223144Z.to.20160108T223159Z.sigtar.gz";
    assert!(chain.add_new_sig(&FileNameInfo::new(next, parser.parse(next).unwrap())));
    assert!(chain.add_new_sig(&FileNameInfo::new(gap, parser.parse(gap).unwrap())));
    assert_eq!(chain.num_inc_signatures(), 2);
    assert!(!chain.add_new_sig(&FileNameInfo::new(full, parser.parse(full).unwrap())));
}

#[test]
fn set_takes_its_files() {
    let parser = FileNameParser::new();
    let info = |n: &'static str| FileNameInfo::new(n, parser.parse(n).unwrap());
    let v1 = "duplicity-full.20150617T182545Z.vol1.difftar.gz";
    let mut set = BackupSet::new(&info(v1));
    assert!(!set.is_complete());
    assert!(set.is_full());
    assert_eq!(set.start_time(), set.end_time());
    // a file of another set is left out
    assert!(!set.add_filename(&info("duplicity-full.20150617T182546Z.vol2.difftar.gz")));
    assert_eq!(set.volume_path(2), None);
    assert!(set.add_filename(&info("duplicity-full.20150617T182545Z.vol2.difftar.gz")));
    assert!(set.add_filename(&info("duplicity-full.20150617T182545Z.manifest")));
    assert!(set.is_complete());
    assert_eq!(set.manifest_path(), "duplicity-full.20150617T182545Z.manifest");
    assert_eq!(set.num_volumes(), 2);
    assert_eq!(set.volume_path(1), Some(v1));
    assert!(!set.is_encrypted());
}
