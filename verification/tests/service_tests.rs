use cyberkit::service::identify_service;

#[test]
fn test_identify_common_ports() {
    assert_eq!(identify_service(80), "HTTP");
    assert_eq!(identify_service(22), "SSH");
    assert_eq!(identify_service(6379), "Redis");
}

#[test]
fn test_identify_unknown_port() {
    assert_eq!(identify_service(9999), "Unknown");
}

#[test]
fn test_identify_more_ports() {
    assert_eq!(identify_service(21), "FTP");
    assert_eq!(identify_service(443), "HTTPS");
    assert_eq!(identify_service(5432), "PostgreSQL");
    assert_eq!(identify_service(8080), "HTTP-Alt");
    assert_eq!(identify_service(0), "Unknown");
}
