use fallen_world_launcher::services::fomod_service::FomodService;

#[test]
fn test_parse_xml_basic() {
    let xml = r#"<?xml version="1.0" encoding="utf-8"?>
<config xmlns="http://qconsulting.ca/fo3/ModConfig5.0.xsd">
  <moduleConfig>
    <installSteps>
      <installStep name="Graphics">
        <optionalFileGroups>
          <group name="Resolution" type="SelectExactlyOne">
            <plugins>
              <plugin name="1920x1080">
                <description>Standard HD</description>
              </plugin>
            </plugins>
          </group>
        </optionalFileGroups>
      </installStep>
    </installSteps>
  </moduleConfig>
</config>"#;

    let steps = FomodService::parse_xml(xml);
    assert!(steps.is_ok());
}
