use whispera::floating_window::{check_region, check_size, popup_styles, HitRect};

fn rect(x: f64, y: f64, w: f64, h: f64) -> HitRect {
    HitRect {
        x_bits: x.to_bits(),
        y_bits: y.to_bits(),
        width_bits: w.to_bits(),
        height_bits: h.to_bits(),
    }
}

#[test]
fn popup_removes_caption_and_taskbar_styles() {
    let (style, ex) = popup_styles(0x16cf0000, 0x00240300);
    assert_eq!(style & 0x00cf0000, 0);
    assert_ne!(style & 0x80000000, 0);
    assert_ne!(style & 0x10000000, 0);
    assert_eq!(ex & 0x00040300, 0);
    assert_ne!(ex & 0x80, 0);
    assert_ne!(ex & 0x00200000, 0);
    assert_eq!(popup_styles(0, 0).0 & 0x10000000, 0);
}

#[test]
fn popup_styles_exact_values() {
    assert_eq!(popup_styles(0x16cf0000, 0x00240300), (0x96000000, 0x00200088));
    assert_eq!(popup_styles(0, 0), (0x86000000, 0x88));
}

#[test]
fn click_regions_must_be_sane() {
    let ok = rect(-10.0, 20.5, 100.0, 40.0);
    assert!(check_region("recorder", &[ok]).is_ok());
    assert_eq!(check_region("main", &[ok]).unwrap_err(), "Region no valida");
    assert_eq!(check_region("recorder", &[]).unwrap_err(), "Region no valida");
    assert!(check_region("recorder", &vec![ok; 33]).is_err());
    assert!(check_region("recorder", &vec![ok; 32]).is_ok());
    for bad in [
        rect(0.0, 0.0, 0.0, 10.0),
        rect(0.0, 0.0, -5.0, 10.0),
        rect(0.0, 0.0, 2000.5, 10.0),
        rect(2001.0, 0.0, 10.0, 10.0),
        rect(0.0, f64::NAN, 10.0, 10.0),
        rect(f64::INFINITY, 0.0, 10.0, 10.0),
    ] {
        assert_eq!(
            check_region("recorder", &[ok, bad]).unwrap_err(),
            "Coordenadas invalidas"
        );
    }
    assert!(check_region("recorder", &[rect(-2000.0, 2000.0, 2000.0, 2000.0)]).is_ok());
}

#[test]
fn recorder_size_limits() {
    assert!(check_size("recorder", 1.0f64.to_bits()).is_ok());
    assert_eq!(check_size("recorder", 1.3f64.to_bits()).unwrap_err(), "Tamano invalido");
    assert!(check_size("recorder", 0.59f64.to_bits()).is_err());
    assert!(check_size("recorder", (-1.0f64).to_bits()).is_err());
    assert!(check_size("main", 1.0f64.to_bits()).is_err());
}
