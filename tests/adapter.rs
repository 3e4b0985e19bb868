use render_core::adapter::{get_adreno_model, get_mali_driver_version, RenderAdapterInfo};

fn info(name: &str, driver_info: &str) -> RenderAdapterInfo {
    RenderAdapterInfo { name: name.to_string(), driver_info: driver_info.to_string() }
}

#[test]
fn adreno_model_from_name() {
    assert_eq!(get_adreno_model(&info("Adreno (TM) 642L", "")), Some(642));
    assert_eq!(get_adreno_model(&info("Adreno (TM) 730", "")), Some(730));
    assert_eq!(get_adreno_model(&info("Adreno (TM) X", "")), Some(0));
    assert_eq!(get_adreno_model(&info("Adreno 640", "")), None);
    assert_eq!(get_adreno_model(&info("Mali-G78", "")), None);
    assert_eq!(get_adreno_model(&info("", "")), None);
}

#[test]
fn adreno_model_wraps_like_a_u32() {
    assert_eq!(get_adreno_model(&info("Adreno (TM) 4294967296", "")), Some(0));
    assert_eq!(get_adreno_model(&info("Adreno (TM) 4294967301", "")), Some(5));
}

#[test]
fn mali_driver_version_from_driver_info() {
    assert_eq!(get_mali_driver_version(&info("Mali-G78", "v1.r32p1-01eac0")), Some(32));
    assert_eq!(get_mali_driver_version(&info("ARM Mali-G57", "x v1.r19p0 v1.r40p0")), Some(19));
    assert_eq!(get_mali_driver_version(&info("Adreno (TM) 640", "v1.r32p1")), None);
    assert_eq!(get_mali_driver_version(&info("Mali-G78", "r32p1")), None);
    assert_eq!(get_mali_driver_version(&info("Mali-G78", "v1.r32")), None);
    assert_eq!(get_mali_driver_version(&info("Mali-G78", "v1.rp")), None);
    assert_eq!(get_mali_driver_version(&info("Mali-G78", "v1.r3xp")), None);
    assert_eq!(get_mali_driver_version(&info("Mali-G78", "v1.r+7p")), Some(7));
    assert_eq!(get_mali_driver_version(&info("Mali-G78", "v1.r4294967295p")), Some(4294967295));
    assert_eq!(get_mali_driver_version(&info("Mali-G78", "v1.r4294967296p")), None);
}
