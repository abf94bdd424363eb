//! Values and files are read as they were written.
use kete::desig::Desig;
use kete::float::{F32, F64};
use kete::fov::{
    FOV, GenericCone, GenericRectangle, NeosCmos, NeosVisit, OmniDirectional, OnSkyRectangle,
        PTFFilter,
    PtfCcd, PtfField, SpherexCmos, SpherexField, SphericalCone, WiseCmos, ZtfCcdQuad, ZtfField,
};
use kete::frames::{DynCenter, Equatorial, Vector};
use kete::io::file::VERSION;
use kete::io::{
    read_fov, read_kete_file, write_single_kete_file, write_vec_kete_file, KeteFileType, KeteRead,
    KeteWrite, Reader,
};
use kete::state::{SimultaneousStates, State};
use kete::time::Time;

fn f(x: f64) -> F64 {
    F64::from_bits(x.to_bits())
}

fn vector(x: f64, y: f64, z: f64) -> Vector<Equatorial> {
    Vector::new([f(x), f(y), f(z)])
}

/// Round-trip helper: write then read, assert equality.
fn round_trip_write_read<T: KeteWrite + KeteRead + std::fmt::Debug + PartialEq>(val: &T) {
    let mut buf = Vec::new();
    val.write_to(&mut buf).unwrap();
    let mut cursor = Reader::new(&buf);
    let recovered = T::read_from(&mut cursor).unwrap();
    assert_eq!(*val, recovered);
}

/// Round-trip helper for types that only implement Debug (not `PartialEq`).
fn round_trip_debug<T: KeteWrite + KeteRead + std::fmt::Debug>(val: &T) {
    let mut buf = Vec::new();
    val.write_to(&mut buf).unwrap();
    let mut cursor = Reader::new(&buf);
    let recovered = T::read_from(&mut cursor).unwrap();
    assert_eq!(format!("{val:?}"), format!("{recovered:?}"));
}

// -- Primitives --

#[test]
fn test_primitives() {
    round_trip_write_read(&42_u8);
    round_trip_write_read(&1234_u16);
    round_trip_write_read(&0xDEAD_BEEF_u32);
    round_trip_write_read(&0xCAFE_BABE_DEAD_BEEF_u64);
    round_trip_write_read(&-42_i32);
    round_trip_write_read(&F32 { bits: 1.5_f32.to_bits() });
    round_trip_write_read(&f(std::f64::consts::PI));
}

#[test]
fn test_char_bool() {
    round_trip_write_read(&'A');
    round_trip_write_read(&'\u{1F680}');
    round_trip_write_read(&true);
    round_trip_write_read(&false);
}

#[test]
fn test_option() {
    round_trip_write_read(&Some(42_u32));
    round_trip_write_read(&None::<u32>);
    round_trip_write_read(&Some('X'));
    round_trip_write_read(&None::<char>);
}

#[test]
fn test_string() {
    let s = String::from("hello world");
    let mut buf = Vec::new();
    s.as_str().write_to(&mut buf).unwrap();
    let mut cursor = Reader::new(&buf);
    let recovered = String::read_from(&mut cursor).unwrap();
    assert_eq!(s, recovered);
}

#[test]
fn test_box_str() {
    let s: Box<str> = "test string".into();
    let mut buf = Vec::new();
    s.as_ref().write_to(&mut buf).unwrap();
    let mut cursor = Reader::new(&buf);
    let recovered = Box::<str>::read_from(&mut cursor).unwrap();
    assert_eq!(s, recovered);
}

#[test]
fn test_vec() {
    let v: Vec<u32> = vec![1, 2, 3, 4, 5];
    round_trip_write_read(&v);
    round_trip_write_read(&Vec::<u32>::new());
}

// -- Domain types --

fn sample_vec() -> Vector<Equatorial> {
    vector(1.0, 2.0, 3.0)
}

fn sample_time() -> Time {
    Time::new(f(2451545.0))
}

fn sample_state() -> State<Equatorial> {
    State::new(
        Desig::Naif(399),
        sample_time(),
        vector(1.0, 0.0, 0.0),
        vector(0.0, 1.0, 0.0),
        DynCenter(10),
    )
}

#[test]
fn test_vector() {
    round_trip_write_read(&sample_vec());
}

#[test]
fn test_time() {
    round_trip_write_read(&sample_time());
}

#[test]
fn test_desig_all_variants() {
    round_trip_write_read(&Desig::Empty);
    round_trip_write_read(&Desig::Perm(12345));
    round_trip_write_read(&Desig::Prov("2024 AB".into()));
    round_trip_write_read(&Desig::CometPerm('C', 1, Some('a')));
    round_trip_write_read(&Desig::CometPerm('P', 2, None));
    round_trip_write_read(&Desig::CometProv(Some('D'), "2024 A1".into(), None));
    round_trip_write_read(&Desig::CometProv(None, "2024 B2".into(), Some('f')));
    round_trip_write_read(&Desig::PlanetSat(5, 1));
    round_trip_write_read(&Desig::Name("Ceres".into()));
    round_trip_write_read(&Desig::Naif(-42));
    round_trip_write_read(&Desig::ObservatoryCode("500".into()));
}

#[test]
fn test_state() {
    round_trip_write_read(&sample_state());
}

#[test]
fn test_ptf_filter() {
    round_trip_write_read(&PTFFilter::G);
    round_trip_write_read(&PTFFilter::R);
    round_trip_write_read(&PTFFilter::HA656);
    round_trip_write_read(&PTFFilter::HA663);
}

// -- FOV variants --

fn sample_rectangle() -> OnSkyRectangle {
    let n = |x: f64, y: f64, z: f64| vector(x, y, z);
    OnSkyRectangle::from_normals([
        n(0.0, 0.0, 1.0),
        n(0.0, 1.0, 0.0),
        n(0.0, 0.0, -1.0),
        n(0.0, -1.0, 0.0),
    ])
}

fn sample_cone() -> SphericalCone {
    SphericalCone {
        pointing: vector(1.0, 0.0, 0.0),
        angle: f(0.1),
    }
}

#[test]
fn test_spherical_cone() {
    round_trip_debug(&sample_cone());
}

#[test]
fn test_on_sky_rectangle() {
    round_trip_debug(&sample_rectangle());
}

#[test]
fn test_fov_omni() {
    let fov = OmniDirectional {
        observer: sample_state(),
    };
    round_trip_debug(&fov);
}

#[test]
fn test_fov_generic_cone() {
    let fov = GenericCone {
        observer: sample_state(),
        patch: sample_cone(),
    };
    round_trip_debug(&fov);
}

#[test]
fn test_fov_generic_rectangle() {
    let fov = GenericRectangle {
        observer: sample_state(),
        patch: sample_rectangle(),
        rotation: f(0.5),
    };
    round_trip_debug(&fov);
}

#[test]
fn test_fov_wise() {
    let fov = WiseCmos {
        observer: sample_state(),
        patch: sample_rectangle(),
        frame_num: 12345,
        scan_id: "scan_001".into(),
    };
    round_trip_debug(&fov);
}

#[test]
fn test_fov_neos_cmos() {
    let fov = NeosCmos {
        observer: sample_state(),
        patch: sample_rectangle(),
        rotation: f(0.1),
        side_id: 1,
        stack_id: 2,
        quad_id: 3,
        loop_id: 4,
        subloop_id: 5,
        exposure_id: 6,
        band: 7,
        cmos_id: 8,
    };
    round_trip_debug(&fov);
}

fn sample_neos_cmos(cmos_id: u8) -> NeosCmos {
    NeosCmos {
        observer: sample_state(),
        patch: sample_rectangle(),
        rotation: f(0.1),
        side_id: 1,
        stack_id: 2,
        quad_id: 3,
        loop_id: 4,
        subloop_id: 5,
        exposure_id: 6,
        band: 7,
        cmos_id,
    }
}

#[test]
fn test_fov_neos_visit() {
    let fov = NeosVisit {
        chips: Box::new([
            sample_neos_cmos(0),
            sample_neos_cmos(1),
            sample_neos_cmos(2),
            sample_neos_cmos(3),
        ]),
        observer: sample_state(),
        rotation: f(0.2),
        side_id: 10,
        stack_id: 11,
        quad_id: 12,
        loop_id: 13,
        subloop_id: 14,
        exposure_id: 15,
        band: 16,
    };
    round_trip_debug(&fov);
}

#[test]
fn test_fov_ztf_ccd_quad() {
    let fov = ZtfCcdQuad {
        observer: sample_state(),
        patch: sample_rectangle(),
        field: 100,
        filefracday: 20240101,
        maglimit: f(21.5),
        fid: 1,
        filtercode: "zr".into(),
        imgtypecode: "o".into(),
        ccdid: 5,
        qid: 2,
    };
    round_trip_debug(&fov);
}

fn sample_ztf_ccd_quad(qid: u8) -> ZtfCcdQuad {
    ZtfCcdQuad {
        observer: sample_state(),
        patch: sample_rectangle(),
        field: 100,
        filefracday: 20240101,
        maglimit: f(21.5),
        fid: 1,
        filtercode: "zr".into(),
        imgtypecode: "o".into(),
        ccdid: 5,
        qid,
    }
}

#[test]
fn test_fov_ztf_field() {
    let fov = ZtfField {
        ccd_quads: vec![sample_ztf_ccd_quad(1), sample_ztf_ccd_quad(2)],
        observer: sample_state(),
        field: 100,
        fid: 1,
        filtercode: "zr".into(),
        imgtypecode: "o".into(),
    };
    round_trip_debug(&fov);
}

#[test]
fn test_fov_ptf_ccd() {
    let fov = PtfCcd {
        observer: sample_state(),
        patch: sample_rectangle(),
        field: 200,
        ccdid: 3,
        filter: PTFFilter::R,
        filename: "ptf_file.fits".into(),
        info_bits: 0,
        seeing: F32 { bits: 2.5_f32.to_bits() },
    };
    round_trip_debug(&fov);
}

fn sample_ptf_ccd(ccdid: u8) -> PtfCcd {
    PtfCcd {
        observer: sample_state(),
        patch: sample_rectangle(),
        field: 200,
        ccdid,
        filter: PTFFilter::R,
        filename: "ptf_file.fits".into(),
        info_bits: 0,
        seeing: F32 { bits: 2.5_f32.to_bits() },
    }
}

#[test]
fn test_fov_ptf_field() {
    let fov = PtfField {
        ccds: vec![sample_ptf_ccd(1), sample_ptf_ccd(2)],
        observer: sample_state(),
        field: 200,
        filter: PTFFilter::R,
    };
    round_trip_debug(&fov);
}

#[test]
fn test_fov_spherex_cmos() {
    let fov = SpherexCmos {
        observer: sample_state(),
        patch: sample_rectangle(),
        uri: "spx://data/001".into(),
        plane_id: "plane_A".into(),
    };
    round_trip_debug(&fov);
}

fn sample_spherex_cmos(plane: &str) -> SpherexCmos {
    SpherexCmos {
        observer: sample_state(),
        patch: sample_rectangle(),
        uri: "spx://data/001".into(),
        plane_id: plane.into(),
    }
}

#[test]
fn test_fov_spherex_field() {
    let fov = SpherexField {
        cmos_frames: vec![sample_spherex_cmos("A"), sample_spherex_cmos("B")],
        observer: sample_state(),
        obsid: "obs_001".into(),
        observationid: "obsrv_001".into(),
    };
    round_trip_debug(&fov);
}

// -- FOV enum round-trip --

#[test]
fn test_fov_enum_round_trip() {
    let cases: Vec<FOV> = vec![
        FOV::OmniDirectional(OmniDirectional {
            observer: sample_state(),
        }),
        FOV::GenericCone(GenericCone {
            observer: sample_state(),
            patch: sample_cone(),
        }),
        FOV::GenericRectangle(GenericRectangle {
            observer: sample_state(),
            patch: sample_rectangle(),
            rotation: f(0.5),
        }),
        FOV::Wise(WiseCmos {
            observer: sample_state(),
            patch: sample_rectangle(),
            frame_num: 1,
            scan_id: "s".into(),
        }),
    ];
    for fov in &cases {
        let mut buf = Vec::new();
        fov.write_to(&mut buf).unwrap();
        let mut cursor = Reader::new(&buf);
        let recovered = read_fov(&mut cursor).unwrap().unwrap();
        // Compare debug representations since FOV doesn't impl PartialEq
        assert_eq!(format!("{fov:?}"), format!("{recovered:?}"));
    }
}

// -- Unknown FOV tag skipping --

#[test]
fn test_unknown_fov_tag_skipped() {
    let mut buf = Vec::new();
    // Write a fake FOV with tag 255, payload of 10 bytes
    255_u8.write_to(&mut buf).unwrap();
    10_u32.write_to(&mut buf).unwrap();
    buf.extend_from_slice(&[0_u8; 10]);
    // Append a sentinel byte to ensure stream is correctly positioned
    42_u8.write_to(&mut buf).unwrap();

    let mut cursor = Reader::new(&buf);
    let result = read_fov(&mut cursor).unwrap();
    assert!(result.is_none());
    // Verify the cursor consumed exactly the FOV payload
    assert_eq!(u8::read_from(&mut cursor).unwrap(), 42);
}

// -- SimultaneousStates --

#[test]
fn test_simult_states_no_fov() {
    let ss = SimultaneousStates::new_exact(vec![sample_state()], None).unwrap();
    round_trip_debug(&ss);
}

#[test]
fn test_simult_states_with_fov() {
    let fov = Some(FOV::OmniDirectional(OmniDirectional {
        observer: sample_state(),
    }));
    let ss = SimultaneousStates::new_exact(vec![sample_state()], fov).unwrap();
    let mut buf = Vec::new();
    ss.write_to(&mut buf).unwrap();
    let mut cursor = Reader::new(&buf);
    let recovered = SimultaneousStates::read_from(&mut cursor).unwrap();
    assert_eq!(ss.epoch().jd, recovered.epoch().jd);
    assert_eq!(ss.center_id(), recovered.center_id());
    assert_eq!(ss.states.len(), recovered.states.len());
    assert!(recovered.fov.is_some());
}

#[test]
fn test_simult_states_empty() {
    assert!(SimultaneousStates::new_exact(vec![], None).is_err());
}

// -- File-level round-trip (single) --

#[test]
fn test_single_file_round_trip() {
    let fov = Some(FOV::OmniDirectional(OmniDirectional {
        observer: sample_state(),
    }));
    let entry = SimultaneousStates::new_exact(vec![sample_state()], fov).unwrap();
    let mut buf = Vec::new();
    write_single_kete_file(&entry, &mut buf).unwrap();
    let mut cursor = Reader::new(&buf);
    let data = read_kete_file(&mut cursor).unwrap();
    match data {
        KeteFileType::Single(recovered) => {
            assert_eq!(entry.epoch().jd, recovered.epoch().jd);
            assert_eq!(entry.center_id(), recovered.center_id());
            assert_eq!(entry.states.len(), recovered.states.len());
            assert!(recovered.fov.is_some());
        }
        KeteFileType::Vec(_) => panic!("expected Single variant"),
    }
}

// -- File-level round-trip (vec) --

#[test]
fn test_vec_file_round_trip() {
    let state2 = State::new(
        Desig::Naif(399),
        Time::new(f(2460000.0)),
        vector(2.0, 0.0, 0.0),
        vector(0.0, 1.0, 0.0),
        DynCenter(10),
    );
    let obs2 = State::new(
        Desig::Naif(399),
        Time::new(f(2460000.0)),
        vector(1.0, 0.0, 0.0),
        vector(0.0, 0.5, 0.0),
        DynCenter(10),
    );
    let entries = vec![
        SimultaneousStates::new_exact(vec![sample_state()], None).unwrap(),
        SimultaneousStates::new_exact(
            vec![state2],
            Some(FOV::GenericCone(GenericCone {
                observer: obs2,
                patch: sample_cone(),
            })),
        )
        .unwrap(),
    ];
    let mut buf = Vec::new();
    write_vec_kete_file(&entries, &mut buf).unwrap();
    let mut cursor = Reader::new(&buf);
    let data = read_kete_file(&mut cursor).unwrap();
    match data {
        KeteFileType::Vec(recovered) => {
            assert_eq!(entries.len(), recovered.len());
            for (orig, rec) in entries.iter().zip(recovered.iter()) {
                assert_eq!(orig.epoch().jd, rec.epoch().jd);
                assert_eq!(orig.center_id(), rec.center_id());
                assert_eq!(orig.states.len(), rec.states.len());
            }
        }
        KeteFileType::Single(_) => panic!("expected Vec variant"),
    }
}

#[test]
fn test_file_bad_magic() {
    let buf = b"NOPE\x01\x00\x00\x00\x00\x00\x00";
    let mut cursor = Reader::new(&buf[..]);
    let result = read_kete_file(&mut cursor);
    assert!(result.is_err());
}

#[test]
fn test_file_future_version() {
    let mut buf = Vec::new();
    buf.extend_from_slice(b"KETE");
    99_u16.write_to(&mut buf).unwrap();
    0_u8.write_to(&mut buf).unwrap();
    0_u32.write_to(&mut buf).unwrap();
    let mut cursor = Reader::new(&buf);
    let result = read_kete_file(&mut cursor);
    assert!(result.is_err());
}

#[test]
fn test_file_unsupported_content_type() {
    let mut buf = Vec::new();
    buf.extend_from_slice(b"KETE");
    VERSION.write_to(&mut buf).unwrap();
    99_u8.write_to(&mut buf).unwrap();
    0_u32.write_to(&mut buf).unwrap();
    let mut cursor = Reader::new(&buf);
    let result = read_kete_file(&mut cursor);
    assert!(result.is_err());
}
